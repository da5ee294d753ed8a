//! How merged regions follow an edit of the grid.
use vstd::prelude::*;

use crate::edit::{edit_ok, last_line, move_line, shift_line, Axis, GridEdit};
use crate::geometry::{overlaps, region_inside, region_valid, regions_wf};
use crate::types::MergeCell;

verus! {

/// First line of `m` along `axis`.
pub open spec fn span_start(axis: Axis, m: MergeCell) -> int {
    match axis {
        Axis::Rows => m.row as int,
        Axis::Columns => m.column as int,
    }
}

/// Number of lines of `m` along `axis`.
pub open spec fn span_len(axis: Axis, m: MergeCell) -> int {
    match axis {
        Axis::Rows => m.height as int,
        Axis::Columns => m.width as int,
    }
}

/// `m` with its extent along `axis` replaced.
pub open spec fn with_span(axis: Axis, m: MergeCell, start: int, len: int) -> MergeCell {
    match axis {
        Axis::Rows => MergeCell { row: start as i32, column: m.column, width: m.width, height: len as i32 },
        Axis::Columns => MergeCell { row: m.row, column: start as i32, width: len as i32, height: m.height },
    }
}

/// The first surviving line of a span starting at `l`, after the deletion.
pub open spec fn delete_first(start: int, count: int, l: int) -> int {
    if l < start {
        l
    } else if l < start + count {
        start
    } else {
        l - count
    }
}

/// The last surviving line of a span ending at `l`, after the deletion.
pub open spec fn delete_last(start: int, count: int, l: int) -> int {
    if l < start {
        l
    } else if l < start + count {
        start - 1
    } else {
        l - count
    }
}

/// The block `[start, start + count)` and the lines it passes over, as one
/// interval `[lo, hi]`.
pub open spec fn move_lo(start: int, count: int, delta: int) -> int {
    if delta < 0 {
        start + delta
    } else {
        start
    }
}

pub open spec fn move_hi(start: int, count: int, delta: int) -> int {
    if delta > 0 {
        start + count - 1 + delta
    } else {
        start + count - 1
    }
}

/// The move carries the span `[a, b]` along whole: the span lies inside the
/// moved block, inside the lines passed over, or away from both.
pub open spec fn move_keeps_span(start: int, count: int, delta: int, a: int, b: int) -> bool {
    ||| start <= a && b <= start + count - 1
    ||| delta > 0 && start + count <= a && b <= start + count - 1 + delta
    ||| delta < 0 && start + delta <= a && b <= start - 1
    ||| b < move_lo(start, count, delta)
    ||| a > move_hi(start, count, delta)
}

/// The edit does not split `m`, nor push it past the last line.
pub open spec fn edit_keeps_region(e: GridEdit, m: MergeCell) -> bool {
    match e {
        GridEdit::Insert { axis, start, count } => span_start(axis, m) + span_len(axis, m) - 1 < start
            || span_start(axis, m) + span_len(axis, m) - 1 + count <= last_line(axis),
        GridEdit::Move { axis, start, count, delta } => move_keeps_span(
            start as int,
            count as int,
            delta as int,
            span_start(axis, m),
            span_start(axis, m) + span_len(axis, m) - 1,
        ),
        _ => true,
    }
}

/// The edit keeps whole the block of `width` by `height` cells at `(r, c)`:
/// it deletes all of it or none of it, inserts no line inside it, and moves
/// it whole or not at all.
pub open spec fn edit_keeps_block(e: GridEdit, r: int, c: int, width: int, height: int) -> bool {
    match e {
        GridEdit::Delete { axis, start, count } => {
            let a = crate::edit::line_of(axis, r, c);
            let b = a + crate::edit::line_of(axis, height, width) - 1;
            b < start || a >= start + count || (start <= a && b < start + count)
        },
        GridEdit::Insert { axis, start, count } => {
            let a = crate::edit::line_of(axis, r, c);
            let b = a + crate::edit::line_of(axis, height, width) - 1;
            !(a < start <= b)
        },
        GridEdit::Move { axis, start, count, delta } => {
            let a = crate::edit::line_of(axis, r, c);
            let b = a + crate::edit::line_of(axis, height, width) - 1;
            move_keeps_span(start as int, count as int, delta as int, a, b)
        },
        _ => true,
    }
}

/// The edit splits none of the regions.
pub open spec fn edit_keeps_regions(e: GridEdit, ms: Seq<MergeCell>) -> bool {
    forall|i: int| 0 <= i < ms.len() ==> edit_keeps_region(e, #[trigger] ms[i])
}

/// What becomes of region `m` under the edit: shifted, grown by lines
/// inserted inside it, shrunk, or dropped (`None`) when it is deleted,
/// collapses to a single cell, or is cleared whole.
pub open spec fn displaced_region(e: GridEdit, m: MergeCell) -> Option<MergeCell> {
    match e {
        GridEdit::Insert { axis, start, count } => {
            let first = shift_line(start as int, count as int, span_start(axis, m));
            let last = shift_line(start as int, count as int, span_start(axis, m) + span_len(axis, m) - 1);
            Some(with_span(axis, m, first, last - first + 1))
        },
        GridEdit::Delete { axis, start, count } => {
            let first = delete_first(start as int, count as int, span_start(axis, m));
            let last = delete_last(
                start as int,
                count as int,
                span_start(axis, m) + span_len(axis, m) - 1,
            );
            if last < first {
                None
            } else {
                let m2 = with_span(axis, m, first, last - first + 1);
                if m2.width == 1 && m2.height == 1 {
                    None
                } else {
                    Some(m2)
                }
            }
        },
        GridEdit::Move { axis, start, count, delta } => Some(
            with_span(
                axis,
                m,
                move_line(start as int, count as int, delta as int, span_start(axis, m)),
                span_len(axis, m),
            ),
        ),
        GridEdit::ClearAll { area } => if region_inside(m, area) {
            None
        } else {
            Some(m)
        },
        _ => Some(m),
    }
}

/// The regions after the edit, keeping their order.
pub open spec fn displaced_regions(ms: Seq<MergeCell>, e: GridEdit) -> Seq<MergeCell>
    decreases ms.len(),
{
    if ms.len() == 0 {
        Seq::empty()
    } else {
        let prev = displaced_regions(ms.drop_last(), e);
        match displaced_region(e, ms.last()) {
            Some(m) => prev.push(m),
            None => prev,
        }
    }
}


/// Last line of `m` along `axis`.
pub open spec fn span_end(axis: Axis, m: MergeCell) -> int {
    span_start(axis, m) + span_len(axis, m) - 1
}

/// The axis across `axis`.
pub open spec fn cross(axis: Axis) -> Axis {
    match axis {
        Axis::Rows => Axis::Columns,
        Axis::Columns => Axis::Rows,
    }
}

pub open spec fn lines_overlap(axis: Axis, a: MergeCell, b: MergeCell) -> bool {
    span_start(axis, a) <= span_end(axis, b) && span_start(axis, b) <= span_end(axis, a)
}

proof fn lemma_overlaps_split(axis: Axis, a: MergeCell, b: MergeCell)
    ensures
        overlaps(a, b) == (lines_overlap(axis, a, b) && lines_overlap(cross(axis), a, b)),
{
}

proof fn lemma_with_span(axis: Axis, m: MergeCell, start: int, len: int)
    requires
        i32::MIN <= start <= i32::MAX,
        i32::MIN <= len <= i32::MAX,
    ensures
        span_start(axis, with_span(axis, m, start, len)) == start,
        span_len(axis, with_span(axis, m, start, len)) == len,
        span_start(cross(axis), with_span(axis, m, start, len)) == span_start(cross(axis), m),
        span_len(cross(axis), with_span(axis, m, start, len)) == span_len(cross(axis), m),
{
}

proof fn lemma_span_bounds(axis: Axis, m: MergeCell)
    requires
        region_valid(m),
    ensures
        1 <= span_start(axis, m),
        1 <= span_len(axis, m),
        span_end(axis, m) <= last_line(axis),
        1 <= span_start(cross(axis), m),
        1 <= span_len(cross(axis), m),
        span_end(cross(axis), m) <= last_line(cross(axis)),
        region_valid(m) == (span_len(axis, m) == 1 && span_len(cross(axis), m) == 1 ==> false),
{
}

/// Inside a span that the move carries whole, every line shifts by the same amount.
proof fn lemma_move_shift(start: int, count: int, delta: int, a: int, b: int, x: int)
    requires
        1 <= count,
        move_keeps_span(start, count, delta, a, b),
        a <= x <= b,
    ensures
        move_line(start, count, delta, x) == move_line(start, count, delta, a) + (x - a),
{
}

/// A region carried by the edit stays a valid region.
pub proof fn lemma_displaced_valid(e: GridEdit, m: MergeCell)
    requires
        edit_ok(e),
        region_valid(m),
        edit_keeps_region(e, m),
    ensures
        displaced_region(e, m) matches Some(m2) ==> region_valid(m2),
{
    match e {
        GridEdit::Delete { axis, start, count } => {
            lemma_span_bounds(axis, m);
            let first = delete_first(start as int, count as int, span_start(axis, m));
            let last = delete_last(start as int, count as int, span_end(axis, m));
            if first <= last {
                lemma_with_span(axis, m, first, last - first + 1);
            }
        },
        GridEdit::Insert { axis, start, count } => {
            lemma_span_bounds(axis, m);
            let first = shift_line(start as int, count as int, span_start(axis, m));
            let last = shift_line(start as int, count as int, span_end(axis, m));
            lemma_with_span(axis, m, first, last - first + 1);
        },
        GridEdit::Move { axis, start, count, delta } => {
            lemma_span_bounds(axis, m);
            let f = move_line(start as int, count as int, delta as int, span_start(axis, m));
            lemma_move_shift(
                start as int,
                count as int,
                delta as int,
                span_start(axis, m),
                span_end(axis, m),
                span_end(axis, m),
            );
            lemma_with_span(axis, m, f, span_len(axis, m));
        },
        _ => {},
    }
}

/// Deletion keeps the order of surviving lines.
proof fn lemma_delete_separates(p: int, n: int, x: int, y: int)
    requires
        1 <= n,
        x < y,
    ensures
        delete_last(p, n, x) < delete_first(p, n, y),
{
}

/// Two regions that share no cell still share none after the edit.
pub proof fn lemma_displaced_disjoint(e: GridEdit, a: MergeCell, b: MergeCell)
    requires
        edit_ok(e),
        region_valid(a),
        region_valid(b),
        edit_keeps_region(e, a),
        edit_keeps_region(e, b),
        !overlaps(a, b),
    ensures
        displaced_region(e, a) matches Some(a2) ==> (displaced_region(e, b) matches Some(b2) ==> !overlaps(
            a2,
            b2,
        )),
{
    match e {
        GridEdit::Delete { axis, start, count } => {
            lemma_span_bounds(axis, a);
            lemma_span_bounds(axis, b);
            lemma_overlaps_split(axis, a, b);
            let (s, n) = (start as int, count as int);
            let fa = delete_first(s, n, span_start(axis, a));
            let la = delete_last(s, n, span_end(axis, a));
            let fb = delete_first(s, n, span_start(axis, b));
            let lb = delete_last(s, n, span_end(axis, b));
            if fa <= la && fb <= lb {
                lemma_with_span(axis, a, fa, la - fa + 1);
                lemma_with_span(axis, b, fb, lb - fb + 1);
                let a2 = with_span(axis, a, fa, la - fa + 1);
                let b2 = with_span(axis, b, fb, lb - fb + 1);
                lemma_overlaps_split(axis, a2, b2);
                if span_end(axis, a) < span_start(axis, b) {
                    lemma_delete_separates(s, n, span_end(axis, a), span_start(axis, b));
                } else if span_end(axis, b) < span_start(axis, a) {
                    lemma_delete_separates(s, n, span_end(axis, b), span_start(axis, a));
                }
            }
        },
        GridEdit::Insert { axis, start, count } => {
            lemma_span_bounds(axis, a);
            lemma_span_bounds(axis, b);
            lemma_overlaps_split(axis, a, b);
            let (s, n) = (start as int, count as int);
            let fa = shift_line(s, n, span_start(axis, a));
            let la = shift_line(s, n, span_end(axis, a));
            let fb = shift_line(s, n, span_start(axis, b));
            let lb = shift_line(s, n, span_end(axis, b));
            lemma_with_span(axis, a, fa, la - fa + 1);
            lemma_with_span(axis, b, fb, lb - fb + 1);
            let a2 = with_span(axis, a, fa, la - fa + 1);
            let b2 = with_span(axis, b, fb, lb - fb + 1);
            lemma_overlaps_split(axis, a2, b2);
        },
        GridEdit::Move { axis, start, count, delta } => {
            lemma_move_disjoint(axis, start as int, count as int, delta as int, a, b);
        },
        _ => {},
    }
}

proof fn lemma_move_disjoint(axis: Axis, s: int, n: int, d: int, a: MergeCell, b: MergeCell)
    requires
        1 <= n,
        region_valid(a),
        region_valid(b),
        1 <= s + d,
        s + n - 1 + d <= last_line(axis),
        1 <= s,
        s + n - 1 <= last_line(axis),
        move_keeps_span(s, n, d, span_start(axis, a), span_end(axis, a)),
        move_keeps_span(s, n, d, span_start(axis, b), span_end(axis, b)),
        !overlaps(a, b),
    ensures
        !overlaps(
            with_span(axis, a, move_line(s, n, d, span_start(axis, a)), span_len(axis, a)),
            with_span(axis, b, move_line(s, n, d, span_start(axis, b)), span_len(axis, b)),
        ),
{
    lemma_span_bounds(axis, a);
    lemma_span_bounds(axis, b);
    lemma_overlaps_split(axis, a, b);
    let fa = move_line(s, n, d, span_start(axis, a));
    let fb = move_line(s, n, d, span_start(axis, b));
    lemma_move_shift(s, n, d, span_start(axis, a), span_end(axis, a), span_end(axis, a));
    lemma_move_shift(s, n, d, span_start(axis, b), span_end(axis, b), span_end(axis, b));
    lemma_with_span(axis, a, fa, span_len(axis, a));
    lemma_with_span(axis, b, fb, span_len(axis, b));
    let a2 = with_span(axis, a, fa, span_len(axis, a));
    let b2 = with_span(axis, b, fb, span_len(axis, b));
    lemma_overlaps_split(axis, a2, b2);
    if overlaps(a2, b2) {
        let y = if fa < fb {
            fb
        } else {
            fa
        };
        let u = span_start(axis, a) + (y - fa);
        let v = span_start(axis, b) + (y - fb);
        lemma_move_shift(s, n, d, span_start(axis, a), span_end(axis, a), u);
        lemma_move_shift(s, n, d, span_start(axis, b), span_end(axis, b), v);
        crate::edit::lemma_move_line_inverse(s, n, d, u);
        crate::edit::lemma_move_line_inverse(s, n, d, v);
        assert(u == v);
    }
}

/// Every displaced region comes from an earlier region of the list.
pub proof fn lemma_displaced_origin(ms: Seq<MergeCell>, e: GridEdit)
    ensures
        forall|j: int|
            0 <= j < displaced_regions(ms, e).len() ==> exists|i: int|
                0 <= i < ms.len() && displaced_region(e, ms[i]) == Some(
                    #[trigger] displaced_regions(ms, e)[j],
                ),
    decreases ms.len(),
{
    if ms.len() > 0 {
        let p = ms.drop_last();
        lemma_displaced_origin(p, e);
        let t = displaced_regions(ms, e);
        let tp = displaced_regions(p, e);
        assert forall|j: int| 0 <= j < t.len() implies exists|i: int|
            0 <= i < ms.len() && displaced_region(e, ms[i]) == Some(#[trigger] t[j]) by {
            if j < tp.len() {
                assert(t[j] == tp[j]);
                let i = choose|i: int| 0 <= i < p.len() && displaced_region(e, p[i]) == Some(tp[j]);
                assert(ms[i] == p[i]);
            } else {
                assert(displaced_region(e, ms[ms.len() - 1]) == Some(t[j]));
            }
        }
    }
}

/// The displaced list is again a list of valid, pairwise disjoint regions.
pub proof fn lemma_displaced_regions_wf(ms: Seq<MergeCell>, e: GridEdit)
    requires
        edit_ok(e),
        regions_wf(ms),
        edit_keeps_regions(e, ms),
    ensures
        regions_wf(displaced_regions(ms, e)),
    decreases ms.len(),
{
    if ms.len() > 0 {
        let p = ms.drop_last();
        assert(regions_wf(p)) by {
            assert forall|i: int, j: int|
                0 <= i < p.len() && 0 <= j < p.len() && i != j implies !overlaps(
                #[trigger] p[i],
                #[trigger] p[j],
            ) by {
                assert(p[i] == ms[i] && p[j] == ms[j]);
            }
            assert forall|i: int| 0 <= i < p.len() implies region_valid(#[trigger] p[i]) by {
                assert(p[i] == ms[i]);
            }
        }
        assert(edit_keeps_regions(e, p)) by {
            assert forall|i: int| 0 <= i < p.len() implies edit_keeps_region(e, #[trigger] p[i]) by {
                assert(p[i] == ms[i]);
            }
        }
        lemma_displaced_regions_wf(p, e);
        lemma_displaced_origin(p, e);
        let m = ms.last();
        let last = ms.len() - 1;
        assert(region_valid(ms[last]) && edit_keeps_region(e, ms[last]));
        lemma_displaced_valid(e, m);
        let tp = displaced_regions(p, e);
        match displaced_region(e, m) {
            Some(m2) => {
                let t = tp.push(m2);
                assert forall|j: int| 0 <= j < tp.len() implies !overlaps(#[trigger] tp[j], m2)
                    && !overlaps(m2, tp[j]) by {
                    let i = choose|i: int| 0 <= i < p.len() && displaced_region(e, p[i]) == Some(tp[j]);
                    assert(p[i] == ms[i]);
                    assert(!overlaps(ms[i], ms[last]) && !overlaps(ms[last], ms[i]));
                    assert(region_valid(ms[i]) && edit_keeps_region(e, ms[i]));
                    lemma_displaced_disjoint(e, ms[i], m);
                    lemma_displaced_disjoint(e, m, ms[i]);
                }
                assert forall|i: int, j: int|
                    0 <= i < t.len() && 0 <= j < t.len() && i != j implies !overlaps(
                    #[trigger] t[i],
                    #[trigger] t[j],
                ) by {
                    if i < tp.len() && j < tp.len() {
                        assert(t[i] == tp[i] && t[j] == tp[j]);
                    } else if i < tp.len() {
                        assert(t[i] == tp[i]);
                    } else if j < tp.len() {
                        assert(t[j] == tp[j]);
                    }
                }
                assert forall|i: int| 0 <= i < t.len() implies region_valid(#[trigger] t[i]) by {
                    if i < tp.len() {
                        assert(t[i] == tp[i]);
                    }
                }
            },
            None => {},
        }
    }
}


/// First line of `m` along `axis` (exec form).
fn exec_span_start(axis: Axis, m: &MergeCell) -> (r: i32)
    ensures
        r == span_start(axis, *m),
{
    match axis {
        Axis::Rows => m.row,
        Axis::Columns => m.column,
    }
}

/// Number of lines of `m` along `axis` (exec form).
fn exec_span_len(axis: Axis, m: &MergeCell) -> (r: i32)
    ensures
        r == span_len(axis, *m),
{
    match axis {
        Axis::Rows => m.height,
        Axis::Columns => m.width,
    }
}

fn exec_with_span(axis: Axis, m: &MergeCell, start: i32, len: i32) -> (r: MergeCell)
    ensures
        r == with_span(axis, *m, start as int, len as int),
{
    match axis {
        Axis::Rows => MergeCell { row: start, column: m.column, width: m.width, height: len },
        Axis::Columns => MergeCell { row: m.row, column: start, width: len, height: m.height },
    }
}

/// The move carries the span `[a, b]` whole (exec form of `move_keeps_span`).
fn exec_move_keeps_span(start: i32, count: i32, delta: i32, a: i32, b: i32) -> (r: bool)
    ensures
        r == move_keeps_span(start as int, count as int, delta as int, a as int, b as int),
{
    let (s, n, d, a, b) = (start as i64, count as i64, delta as i64, a as i64, b as i64);
    let lo = if d < 0 {
        s + d
    } else {
        s
    };
    let hi = if d > 0 {
        s + n - 1 + d
    } else {
        s + n - 1
    };
    (s <= a && b <= s + n - 1) || (d > 0 && s + n <= a && b <= s + n - 1 + d) || (d < 0 && s + d <= a
        && b <= s - 1) || b < lo || a > hi
}

/// Whether the edit keeps whole the block of `width` by `height` cells at
/// `(r, c)` (exec form of `edit_keeps_block`).
pub fn keeps_block(e: &GridEdit, r: i32, c: i32, width: i32, height: i32) -> (res: bool)
    ensures
        res == edit_keeps_block(*e, r as int, c as int, width as int, height as int),
{
    match e {
        GridEdit::Delete { axis, start, count } => {
            let (a, len) = match axis {
                Axis::Rows => (r as i64, height as i64),
                Axis::Columns => (c as i64, width as i64),
            };
            let b = a + len - 1;
            let (s, n) = (*start as i64, *count as i64);
            b < s || a >= s + n || (s <= a && b < s + n)
        },
        GridEdit::Insert { axis, start, count } => {
            let (a, len) = match axis {
                Axis::Rows => (r as i64, height as i64),
                Axis::Columns => (c as i64, width as i64),
            };
            let b = a + len - 1;
            !(a < *start as i64 && *start as i64 <= b)
        },
        GridEdit::Move { axis, start, count, delta } => {
            let (a, len) = match axis {
                Axis::Rows => (r as i64, height as i64),
                Axis::Columns => (c as i64, width as i64),
            };
            let b = a + len - 1;
            let (s, n, d) = (*start as i64, *count as i64, *delta as i64);
            let lo = if d < 0 {
                s + d
            } else {
                s
            };
            let hi = if d > 0 {
                s + n - 1 + d
            } else {
                s + n - 1
            };
            (s <= a && b <= s + n - 1) || (d > 0 && s + n <= a && b <= s + n - 1 + d) || (d < 0 && s + d <= a
                && b <= s - 1) || b < lo || a > hi
        },
        _ => true,
    }
}

/// The edit splits none of the regions, nor pushes one past the last line
/// (exec form of `edit_keeps_regions`).
pub fn keeps_regions(e: &GridEdit, ms: &Vec<MergeCell>) -> (r: bool)
    requires
        regions_wf(ms@),
    ensures
        r == edit_keeps_regions(*e, ms@),
{
    match e {
        GridEdit::Insert { axis, start, count } => {
            let last: i64 = match axis {
                Axis::Rows => crate::types::LAST_ROW as i64,
                Axis::Columns => crate::types::LAST_COLUMN as i64,
            };
            let n = ms.len();
            let mut i: usize = 0;
            while i < n
                invariant
                    n == ms@.len(),
                    i <= n,
                    regions_wf(ms@),
                    last == last_line(*axis),
                    *e == (GridEdit::Insert { axis: *axis, start: *start, count: *count }),
                    forall|j: int| 0 <= j < i ==> edit_keeps_region(*e, #[trigger] ms@[j]),
                decreases n - i,
            {
                let m = &ms[i];
                assert(region_valid(ms@[i as int]));
                let b = exec_span_start(*axis, m) as i64 + exec_span_len(*axis, m) as i64 - 1;
                let keeps = b < *start as i64 || b + *count as i64 <= last;
                assert(keeps == edit_keeps_region(*e, ms@[i as int]));
                if !keeps {
                    return false;
                }
                i = i + 1;
            }
            true
        },
        GridEdit::Move { axis, start, count, delta } => {
            let n = ms.len();
            let mut i: usize = 0;
            while i < n
                invariant
                    n == ms@.len(),
                    i <= n,
                    regions_wf(ms@),
                    *e == (GridEdit::Move { axis: *axis, start: *start, count: *count, delta: *delta }),
                    forall|j: int| 0 <= j < i ==> edit_keeps_region(*e, #[trigger] ms@[j]),
                decreases n - i,
            {
                let m = &ms[i];
                assert(region_valid(ms@[i as int]));
                let a = exec_span_start(*axis, m);
                let b = a + exec_span_len(*axis, m) - 1;
                let keeps = exec_move_keeps_span(*start, *count, *delta, a, b);
                assert(keeps == edit_keeps_region(*e, ms@[i as int]));
                if !keeps {
                    return false;
                }
                i = i + 1;
            }
            true
        },
        _ => true,
    }
}

/// What becomes of region `m` under the edit (exec form of `displaced_region`).
pub fn displace_region(e: &GridEdit, m: &MergeCell) -> (r: Option<MergeCell>)
    requires
        edit_ok(*e),
        region_valid(*m),
        edit_keeps_region(*e, *m),
    ensures
        r == displaced_region(*e, *m),
{
    match e {
        GridEdit::Delete { axis, start, count } => {
            proof {
                lemma_span_bounds(*axis, *m);
            }
            let s0 = exec_span_start(*axis, m);
            let l0 = s0 + exec_span_len(*axis, m) - 1;
            let first = if s0 < *start {
                s0
            } else if s0 < *start + *count {
                *start
            } else {
                s0 - *count
            };
            let last = if l0 < *start {
                l0
            } else if l0 < *start + *count {
                *start - 1
            } else {
                l0 - *count
            };
            if last < first {
                None
            } else {
                let m2 = exec_with_span(*axis, m, first, last - first + 1);
                if m2.width == 1 && m2.height == 1 {
                    None
                } else {
                    Some(m2)
                }
            }
        },
        GridEdit::Insert { axis, start, count } => {
            proof {
                lemma_span_bounds(*axis, *m);
            }
            let s0 = exec_span_start(*axis, m);
            let l0 = s0 + exec_span_len(*axis, m) - 1;
            let first = if s0 < *start {
                s0
            } else {
                s0 + *count
            };
            let last = if l0 < *start {
                l0
            } else {
                l0 + *count
            };
            Some(exec_with_span(*axis, m, first, last - first + 1))
        },
        GridEdit::Move { axis, start, count, delta } => {
            proof {
                lemma_span_bounds(*axis, *m);
                lemma_move_shift(
                    *start as int,
                    *count as int,
                    *delta as int,
                    span_start(*axis, *m),
                    span_end(*axis, *m),
                    span_end(*axis, *m),
                );
            }
            let s0 = exec_span_start(*axis, m);
            let (s, n, d) = (*start, *count, *delta);
            let f = if s <= s0 && s0 < s + n {
                s0 + d
            } else if d > 0 && s + n <= s0 && (s0 as i64) < s as i64 + n as i64 + d as i64 {
                s0 - n
            } else if d < 0 && (s as i64 + d as i64) <= s0 as i64 && s0 < s {
                s0 + n
            } else {
                s0
            };
            Some(exec_with_span(*axis, m, f, exec_span_len(*axis, m)))
        },
        GridEdit::ClearAll { area } => {
            let inside = area.row as i64 <= m.row as i64 && m.row as i64 + m.height as i64
                <= area.row as i64 + area.height as i64 && area.column as i64 <= m.column as i64
                && m.column as i64 + m.width as i64 <= area.column as i64 + area.width as i64;
            if inside {
                None
            } else {
                Some(*m)
            }
        },
        _ => Some(*m),
    }
}

/// The regions after the edit.
pub fn displace_regions(ms: &Vec<MergeCell>, e: &GridEdit) -> (r: Vec<MergeCell>)
    requires
        edit_ok(*e),
        regions_wf(ms@),
        edit_keeps_regions(*e, ms@),
    ensures
        r@ == displaced_regions(ms@, *e),
        regions_wf(r@),
{
    let n = ms.len();
    let mut out: Vec<MergeCell> = Vec::new();
    let mut i: usize = 0;
    while i < n
        invariant
            n == ms@.len(),
            i <= n,
            edit_ok(*e),
            regions_wf(ms@),
            edit_keeps_regions(*e, ms@),
            out@ == displaced_regions(ms@.take(i as int), *e),
        decreases n - i,
    {
        proof {
            assert(ms@.take(i + 1).drop_last() =~= ms@.take(i as int));
            assert(ms@.take(i + 1).last() == ms@[i as int]);
            assert(region_valid(ms@[i as int]));
            assert(edit_keeps_region(*e, ms@[i as int]));
        }
        match displace_region(e, &ms[i]) {
            Some(m2) => out.push(m2),
            None => {},
        }
        i = i + 1;
    }
    proof {
        assert(ms@.take(n as int) =~= ms@);
        lemma_displaced_regions_wf(ms@, *e);
    }
    out
}


proof fn lemma_covers_axis(axis: Axis, m: MergeCell, r: int, c: int)
    ensures
        crate::geometry::covers(m, r, c) == {
            &&& span_start(axis, m) <= crate::edit::line_of(axis, r, c) <= span_end(axis, m)
            &&& span_start(cross(axis), m) <= crate::edit::line_of(cross(axis), r, c) <= span_end(cross(axis), m)
            &&& !(crate::edit::line_of(axis, r, c) == span_start(axis, m) && crate::edit::line_of(cross(axis), r, c)
                == span_start(cross(axis), m))
        },
{
}

proof fn lemma_with_line(axis: Axis, r: int, c: int, l: int)
    ensures
        crate::edit::line_of(axis, crate::edit::with_line(axis, r, c, l).0, crate::edit::with_line(axis, r, c, l).1)
            == l,
        crate::edit::line_of(
            cross(axis),
            crate::edit::with_line(axis, r, c, l).0,
            crate::edit::with_line(axis, r, c, l).1,
        ) == crate::edit::line_of(cross(axis), r, c),
{
}

proof fn lemma_insert_covers(
    e: GridEdit,
    axis: Axis,
    start: i32,
    count: i32,
    m: MergeCell,
    m2: MergeCell,
    r: int,
    c: int,
)
    requires
        e == (GridEdit::Insert { axis, start, count }),
        edit_ok(e),
        region_valid(m),
        edit_keeps_region(e, m),
        displaced_region(e, m) == Some(m2),
        crate::geometry::covers(m2, r, c),
    ensures
        crate::geometry::covers(m, crate::edit::edit_source(e, r, c).0, crate::edit::edit_source(e, r, c).1)
            || crate::edit::edit_key(e, crate::edit::edit_source(e, r, c).0, crate::edit::edit_source(e, r, c).1)
            != Some((r, c)),
{
    let (p, n) = (start as int, count as int);
    lemma_span_bounds(axis, m);
    let first = shift_line(p, n, span_start(axis, m));
    let last = shift_line(p, n, span_end(axis, m));
    lemma_with_span(axis, m, first, last - first + 1);
    lemma_covers_axis(axis, m2, r, c);
    let l2 = crate::edit::line_of(axis, r, c);
    let l = crate::edit::insert_line_source(p, n, l2);
    let src = crate::edit::edit_source(e, r, c);
    assert(src == crate::edit::with_line(axis, r, c, l));
    lemma_with_line(axis, r, c, l);
    if p <= l2 < p + n {
        assert(l == l2);
        assert(shift_line(p, n, l) != l2);
    } else {
        assert(shift_line(p, n, l) == l2);
        assert(span_start(axis, m) <= l <= span_end(axis, m));
        lemma_covers_axis(axis, m, src.0, src.1);
    }
}

proof fn lemma_kept_covers(e: GridEdit, m: MergeCell, m2: MergeCell, r: int, c: int)
    requires
        !(e is Insert),
        edit_ok(e),
        region_valid(m),
        edit_keeps_region(e, m),
        displaced_region(e, m) == Some(m2),
        crate::geometry::covers(m2, r, c),
    ensures
        crate::geometry::covers(m, crate::edit::edit_source(e, r, c).0, crate::edit::edit_source(e, r, c).1),
{
    match e {
        GridEdit::Delete { axis, start, count } => {
            let (p, n) = (start as int, count as int);
            lemma_span_bounds(axis, m);
            let first = delete_first(p, n, span_start(axis, m));
            let last = delete_last(p, n, span_end(axis, m));
            lemma_with_span(axis, m, first, last - first + 1);
            lemma_covers_axis(axis, m2, r, c);
            let l2 = crate::edit::line_of(axis, r, c);
            let l = crate::edit::delete_line_source(p, n, l2);
            let src = crate::edit::edit_source(e, r, c);
            lemma_with_line(axis, r, c, l);
            lemma_covers_axis(axis, m, src.0, src.1);
        },
        GridEdit::Move { axis, start, count, delta } => {
            let (s, n, d) = (start as int, count as int, delta as int);
            lemma_span_bounds(axis, m);
            let f = move_line(s, n, d, span_start(axis, m));
            lemma_move_shift(s, n, d, span_start(axis, m), span_end(axis, m), span_end(axis, m));
            lemma_with_span(axis, m, f, span_len(axis, m));
            lemma_covers_axis(axis, m2, r, c);
            let l2 = crate::edit::line_of(axis, r, c);
            let x = span_start(axis, m) + (l2 - f);
            lemma_move_shift(s, n, d, span_start(axis, m), span_end(axis, m), x);
            crate::edit::lemma_move_line_inverse(s, n, d, x);
            let src = crate::edit::edit_source(e, r, c);
            lemma_with_line(axis, r, c, move_line(s + d, n, -d, l2));
            lemma_covers_axis(axis, m, src.0, src.1);
        },
        _ => {},
    }
}

/// A covered cell of a displaced region comes from a covered cell of the
/// region before the edit, or is a line that the edit inserted.
pub proof fn lemma_displaced_covers(e: GridEdit, m: MergeCell, m2: MergeCell, r: int, c: int)
    requires
        edit_ok(e),
        region_valid(m),
        edit_keeps_region(e, m),
        displaced_region(e, m) == Some(m2),
        crate::geometry::covers(m2, r, c),
    ensures
        crate::geometry::covers(m, crate::edit::edit_source(e, r, c).0, crate::edit::edit_source(e, r, c).1)
            || crate::edit::edit_key(e, crate::edit::edit_source(e, r, c).0, crate::edit::edit_source(e, r, c).1)
            != Some((r, c)),
{
    match e {
        GridEdit::Insert { axis, start, count } => {
            lemma_insert_covers(e, axis, start, count, m, m2, r, c);
        },
        _ => {
            lemma_kept_covers(e, m, m2, r, c);
        },
    }
}

} // verus!
