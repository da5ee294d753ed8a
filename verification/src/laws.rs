//! Properties that relate several operations: what undo and redo give back,
//! what a merge does to queries, and how clearing treats merged regions.
use vstd::prelude::*;

use crate::displace::{
    displaced_region, displaced_regions, move_hi, move_lo, span_end, span_len, span_start, with_span,
};
use crate::edit::Axis;
use crate::eval::{cell_value, spills_over, Val};
use crate::edit::{without_content, GridEdit};
use crate::geometry::{contains, covers, overlaps, region_inside, region_valid, regions_wf};
use crate::merge_cells::{merge_error, overlaps_existing};
use crate::types::MergeCell;
use crate::user_model::history::{recorded, recorded_swap, redone, undone, DiffState, UserState};
use crate::worksheet::{
    covered_empty, covered_snapshot, lemma_region_unique, merged, region_at, region_index_at, unmerged,
    unsnapshot, snapshot, total_grid, SheetState,
};

verus! {

/// Adding a region that shares no cell with the others keeps the list well formed.
proof fn lemma_push_wf(ms: Seq<MergeCell>, m: MergeCell)
    requires
        regions_wf(ms),
        region_valid(m),
        forall|i: int| 0 <= i < ms.len() ==> !overlaps(#[trigger] ms[i], m),
    ensures
        regions_wf(ms.push(m)),
{
    let t = ms.push(m);
    assert forall|i: int, j: int| 0 <= i < t.len() && 0 <= j < t.len() && i != j implies !overlaps(
        #[trigger] t[i],
        #[trigger] t[j],
    ) by {
        if i < ms.len() && j < ms.len() {
            assert(t[i] == ms[i] && t[j] == ms[j]);
        } else if i < ms.len() {
            assert(t[i] == ms[i]);
            assert(!overlaps(ms[i], m));
        } else {
            assert(t[j] == ms[j]);
            assert(!overlaps(ms[j], m));
        }
    }
    assert forall|i: int| 0 <= i < t.len() implies region_valid(#[trigger] t[i]) by {
        if i < ms.len() {
            assert(t[i] == ms[i]);
        }
    }
}

/// Removing a region keeps the list well formed, and the removed region
/// shares no cell with what is left.
proof fn lemma_remove_wf(ms: Seq<MergeCell>, i: int)
    requires
        regions_wf(ms),
        0 <= i < ms.len(),
    ensures
        regions_wf(ms.remove(i)),
        forall|j: int| 0 <= j < ms.remove(i).len() ==> !overlaps(#[trigger] ms.remove(i)[j], ms[i]),
{
    let t = ms.remove(i);
    assert forall|a: int, b: int| 0 <= a < t.len() && 0 <= b < t.len() && a != b implies !overlaps(
        #[trigger] t[a],
        #[trigger] t[b],
    ) by {
        let a2 = if a < i { a } else { a + 1 };
        let b2 = if b < i { b } else { b + 1 };
        assert(t[a] == ms[a2] && t[b] == ms[b2]);
    }
    assert forall|a: int| 0 <= a < t.len() implies region_valid(#[trigger] t[a]) by {
        let a2 = if a < i { a } else { a + 1 };
        assert(t[a] == ms[a2]);
    }
    assert forall|j: int| 0 <= j < t.len() implies !overlaps(#[trigger] t[j], ms[i]) by {
        let j2 = if j < i { j } else { j + 1 };
        assert(t[j] == ms[j2]);
    }
}

/// The region that was pushed last is the one found at any of its cells.
proof fn lemma_region_at_pushed(ms: Seq<MergeCell>, m: MergeCell, r: int, c: int)
    requires
        regions_wf(ms.push(m)),
        contains(m, r, c),
    ensures
        region_at(ms.push(m), r, c) == Some(m),
        region_index_at(ms.push(m), r, c) == ms.len(),
{
    let t = ms.push(m);
    assert(contains(t[ms.len() as int], r, c));
    let k = region_index_at(t, r, c);
    lemma_region_unique(t, k, ms.len() as int, r, c);
}

/// A merge, as seen from any cell: the anchor keeps its value, covered cells
/// lose their content (style and link stay), every other cell is untouched.
pub proof fn law_merge_grid(st: SheetState, m: MergeCell, r: int, c: int)
    ensures
        merged(st, m).grid[(r, c)] == if covers(m, r, c) {
            without_content(st.grid[(r, c)])
        } else {
            st.grid[(r, c)]
        },
        merged(st, m).merges == st.merges.push(m),
{
}

/// No formula of the sheet spreads over a cell of `m`.
proof fn lemma_no_spill_over(st: SheetState, m: MergeCell, r: int, c: int)
    requires
        !crate::merge_cells::spill_blocks(st, m),
        contains(m, r, c),
    ensures
        forall|a: (int, int)| #[trigger] spills_over(st.grid, a, (r, c)) ==> false,
{
    assert forall|a: (int, int)| #[trigger] spills_over(st.grid, a, (r, c)) implies false by {
        assert(crate::grid::valid_position(a.0, a.1) && match crate::model::spill_of(st.grid[(a.0, a.1)]) {
            Some(sz) => a.0 <= crate::geometry::last_row(m) && m.row <= a.0 + sz.1 - 1 && a.1
                <= crate::geometry::last_column(m) && m.column <= a.1 + sz.0 - 1,
            None => false,
        });
    }
}

/// After a merge, every covered cell of the region reads as blank to the
/// formulas that refer to it, whatever it held before (a merge is refused
/// where a formula spreads over the region).
pub proof fn law_merge_covered_reads_blank(st: SheetState, m: MergeCell, r: int, c: int, fuel: nat)
    requires
        merge_error(st, m) is None,
        covers(m, r, c),
    ensures
        cell_value(merged(st, m).grid, (r, c), fuel) == Val::Blank,
{
    law_merge_grid(st, m, r, c);
    let g2 = merged(st, m).grid;
    assert forall|a: (int, int)| !#[trigger] spills_over(g2, a, (r, c)) by {
        law_merge_grid(st, m, a.0, a.1);
        lemma_no_spill_over(st, m, r, c);
        if spills_over(g2, a, (r, c)) {
            assert(spills_over(st.grid, a, (r, c)));
        }
    }
}

/// After an unmerge, the cells the region covered still read as blank where
/// no formula spreads over the region: the content a merge discarded does
/// not come back.
pub proof fn law_unmerge_covered_stays_blank(st: SheetState, i: int, r: int, c: int, fuel: nat)
    requires
        covered_empty(st),
        0 <= i < st.merges.len(),
        !crate::merge_cells::spill_blocks(st, st.merges[i]),
        covers(st.merges[i], r, c),
    ensures
        cell_value(unmerged(st, i).grid, (r, c), fuel) == Val::Blank,
{
    lemma_no_spill_over(st, st.merges[i], r, c);
}

/// After a merge, every cell of the region resolves to the region, and every
/// other cell resolves as before.
pub proof fn law_merged_cells_resolve(st: SheetState, m: MergeCell, r: int, c: int)
    requires
        regions_wf(st.merges),
        merge_error(st, m) is None,
    ensures
        region_at(merged(st, m).merges, r, c) == if contains(m, r, c) {
            Some(m)
        } else {
            region_at(st.merges, r, c)
        },
{
    let ms = st.merges;
    let t = ms.push(m);
    crate::merge_cells::lemma_merge_ok_valid(st, m);
    lemma_push_wf(ms, m);
    if contains(m, r, c) {
        lemma_region_at_pushed(ms, m, r, c);
    } else {
        if crate::worksheet::in_some_region(t, r, c) {
            let k = region_index_at(t, r, c);
            assert(k < ms.len());
            assert(t[k] == ms[k]);
            assert(crate::worksheet::in_some_region(ms, r, c));
            let k2 = region_index_at(ms, r, c);
            assert(t[k2] == ms[k2]);
            lemma_region_unique(t, k, k2, r, c);
        } else {
            assert forall|i: int| 0 <= i < ms.len() implies !contains(#[trigger] ms[i], r, c) by {
                assert(t[i] == ms[i]);
            }
        }
    }
}

/// Giving the covered cells of `m` back what was recorded when `m` was
/// merged undoes the merge on the grid.
proof fn lemma_restore_merged_grid(st: SheetState, m: MergeCell)
    requires
        region_valid(m),
        total_grid(st.grid),
    ensures
        crate::worksheet::restored_grid(merged(st, m).grid, m, covered_snapshot(st, m)) == st.grid,
{
    let g = crate::worksheet::restored_grid(merged(st, m).grid, m, covered_snapshot(st, m));
    assert forall|k: (int, int)| #[trigger] g[k] == st.grid[k] by {
        law_merge_grid(st, m, k.0, k.1);
        if covers(m, k.0, k.1) {
            let i = k.0 - m.row;
            let j = k.1 - m.column;
            assert((m.row + i, m.column + j) == k);
            assert(unsnapshot(snapshot(st.grid[k].cell)) == st.grid[k].cell);
        }
    }
    assert(g =~= st.grid);
}

/// Undoing a merge gives the workbook back exactly as it was before the
/// merge, and redoing it afterwards merges again.
pub proof fn law_merge_undo_redo(u: UserState, sheet: int, m: MergeCell)
    requires
        0 <= sheet < u.sheets.len(),
        regions_wf(u.sheets[sheet].merges),
        total_grid(u.sheets[sheet].grid),
        merge_error(u.sheets[sheet], m) is None,
    ensures
        ({
            let st = u.sheets[sheet];
            let d = DiffState::Merge { sheet, region: m, old_covered: covered_snapshot(st, m) };
            let after = recorded(u, u.sheets.update(sheet, merged(st, m)), d);
            let back = UserState { sheets: u.sheets, undo: u.undo, redo: seq![d] };
            &&& undone(after) == Some(back)
            &&& redone(back) == Some(after)
        }),
{
    let st = u.sheets[sheet];
    let ms = st.merges;
    let d = DiffState::Merge { sheet, region: m, old_covered: covered_snapshot(st, m) };
    let after = recorded(u, u.sheets.update(sheet, merged(st, m)), d);
    let back = UserState { sheets: u.sheets, undo: u.undo, redo: seq![d] };
    crate::merge_cells::lemma_merge_ok_valid(st, m);
    lemma_push_wf(ms, m);
    lemma_region_at_pushed(ms, m, m.row as int, m.column as int);
    assert(ms.push(m).remove(ms.len() as int) =~= ms);
    lemma_restore_merged_grid(st, m);
    assert(after.sheets[sheet] == merged(st, m));
    assert(after.sheets.update(
        sheet,
        SheetState {
            grid: crate::worksheet::restored_grid(merged(st, m).grid, m, covered_snapshot(st, m)),
            merges: ms.push(m).remove(ms.len() as int),
        },
    ) =~= u.sheets);
    assert(after.undo.drop_last() =~= u.undo);
    assert(Seq::<DiffState>::empty().push(d) =~= seq![d]);
    assert(undone(after) == Some(back));
    assert(!overlaps_existing(st, m));
    assert(back.undo.push(d) =~= after.undo);
    assert(seq![d].drop_last() =~= Seq::<DiffState>::empty());
    assert(redone(back) == Some(after));
}

/// Undoing an unmerge puts the region back (at the end of the list) with
/// every cell as it was, and redoing it removes the region again.
pub proof fn law_unmerge_undo_redo(u: UserState, sheet: int, r: int, c: int)
    requires
        0 <= sheet < u.sheets.len(),
        regions_wf(u.sheets[sheet].merges),
        total_grid(u.sheets[sheet].grid),
        covered_empty(u.sheets[sheet]),
        region_at(u.sheets[sheet].merges, r, c) is Some,
    ensures
        ({
            let st = u.sheets[sheet];
            let i = region_index_at(st.merges, r, c);
            let m = st.merges[i];
            let d = DiffState::Unmerge { sheet, region: m };
            let after = recorded(u, u.sheets.update(sheet, unmerged(st, i)), d);
            let back_st = SheetState { grid: st.grid, merges: st.merges.remove(i).push(m) };
            let back = UserState { sheets: u.sheets.update(sheet, back_st), undo: u.undo, redo: seq![d] };
            &&& undone(after) == Some(back)
            &&& back_st.merges.to_set() == st.merges.to_set()
            &&& redone(back) == Some(after)
        }),
{
    let st = u.sheets[sheet];
    let ms = st.merges;
    let i = region_index_at(ms, r, c);
    let m = ms[i];
    let d = DiffState::Unmerge { sheet, region: m };
    let after = recorded(u, u.sheets.update(sheet, unmerged(st, i)), d);
    let back_st = SheetState { grid: st.grid, merges: ms.remove(i).push(m) };
    let back = UserState { sheets: u.sheets.update(sheet, back_st), undo: u.undo, redo: seq![d] };
    lemma_remove_wf(ms, i);
    assert(region_valid(m));
    let rest = ms.remove(i);
    assert(!overlaps_existing(unmerged(st, i), m));
    // Covered cells are already empty, so merging again changes no cell.
    assert forall|k: (int, int)| #[trigger] merged(unmerged(st, i), m).grid[k] == st.grid[k] by {
        law_merge_grid(unmerged(st, i), m, k.0, k.1);
        if covers(m, k.0, k.1) {
            assert(covers(st.merges[i], k.0, k.1));
        }
    }
    assert(merged(unmerged(st, i), m).grid =~= st.grid);
    assert(merged(unmerged(st, i), m) == back_st);
    assert(after.sheets.update(sheet, back_st) =~= u.sheets.update(sheet, back_st));
    assert(after.undo.drop_last() =~= u.undo);
    assert(Seq::<DiffState>::empty().push(d) =~= seq![d]);
    assert(undone(after) == Some(back));
    // The same regions, in another order.
    assert forall|x: MergeCell| back_st.merges.to_set().contains(x) == ms.to_set().contains(x) by {
        if ms.contains(x) {
            let j = choose|j: int| 0 <= j < ms.len() && ms[j] == x;
            if j == i {
                assert(back_st.merges[rest.len() as int] == x);
            } else {
                let j2 = if j < i { j } else { j - 1 };
                assert(back_st.merges[j2] == x);
            }
        }
        if back_st.merges.contains(x) {
            let j = choose|j: int| 0 <= j < back_st.merges.len() && back_st.merges[j] == x;
            if j == rest.len() {
                assert(ms[i] == x);
            } else {
                let j2 = if j < i { j } else { j + 1 };
                assert(ms[j2] == x);
            }
        }
    }
    assert(back_st.merges.to_set() =~= ms.to_set());
    // Redo finds the region again at its anchor, now at the end of the list.
    lemma_push_wf(rest, m);
    assert(contains(m, m.row as int, m.column as int));
    lemma_region_at_pushed(rest, m, m.row as int, m.column as int);
    assert(rest.push(m).remove(rest.len() as int) =~= rest);
    assert(back.sheets[sheet] == back_st);
    assert(back.sheets.update(sheet, unmerged(back_st, rest.len() as int)) =~= after.sheets);
    assert(back.undo.push(d) =~= after.undo);
    assert(seq![d].drop_last() =~= Seq::<DiffState>::empty());
    assert(redone(back) == Some(after));
}

/// Every other change replaces one sheet and records the old version: undo
/// gives the old sheet back exactly, and redo the new one.
pub proof fn law_swap_undo_redo(u: UserState, sheet: int, st2: SheetState)
    requires
        0 <= sheet < u.sheets.len(),
    ensures
        ({
            let d = DiffState::Swap { sheet, other: st2 };
            let back = UserState { sheets: u.sheets, undo: u.undo, redo: seq![d] };
            &&& undone(recorded_swap(u, sheet, st2)) == Some(back)
            &&& redone(back) == Some(recorded_swap(u, sheet, st2))
        }),
{
    let d = DiffState::Swap { sheet, other: st2 };
    let after = recorded_swap(u, sheet, st2);
    let back = UserState { sheets: u.sheets, undo: u.undo, redo: seq![d] };
    assert(after.sheets.update(sheet, u.sheets[sheet]) =~= u.sheets);
    assert(after.undo.drop_last() =~= u.undo);
    assert(Seq::<DiffState>::empty().push(d) =~= seq![d]);
    assert(undone(after) == Some(back));
    assert(back.undo.push(DiffState::Swap { sheet, other: u.sheets[sheet] }) =~= after.undo);
    assert(seq![d].drop_last() =~= Seq::<DiffState>::empty());
    assert(u.sheets.update(sheet, st2) =~= after.sheets);
    assert(redone(back) == Some(after));
}

/// Clearing contents never unmerges.
pub proof fn law_clear_contents_keeps_merges(ms: Seq<MergeCell>, area: MergeCell)
    ensures
        displaced_regions(ms, GridEdit::ClearContents { area }) == ms,
    decreases ms.len(),
{
    if ms.len() > 0 {
        law_clear_contents_keeps_merges(ms.drop_last(), area);
        assert(ms.drop_last().push(ms.last()) =~= ms);
    }
}

/// Clearing everything in an area unmerges exactly the regions that lie
/// entirely inside it; the others stay, in order.
pub proof fn law_clear_all_unmerges_contained(ms: Seq<MergeCell>, area: MergeCell)
    ensures
        displaced_regions(ms, GridEdit::ClearAll { area }) == ms.filter(|m: MergeCell| !region_inside(m, area)),
    decreases ms.len(),
{
    reveal(Seq::filter);
    if ms.len() > 0 {
        law_clear_all_unmerges_contained(ms.drop_last(), area);
    }
}


/// The sheets of a well-formed model meet the conditions of the laws above.
pub proof fn law_model_sheets_wf(u: crate::user_model::common::UserModel, sheet: int)
    requires
        u.wf(),
        0 <= sheet < u.state().sheets.len(),
    ensures
        regions_wf(u.state().sheets[sheet].merges),
        total_grid(u.state().sheets[sheet].grid),
        covered_empty(u.state().sheets[sheet]),
{
    assert(u.model.worksheets@[sheet].wf());
    assert(u.state().sheets[sheet] == u.model.worksheets@[sheet].state());
}


/// What a cell holds after typing is what was typed; typing a web address
/// links the cell to it, and the style changes only where a link was created.
pub proof fn law_input_read_back(s: crate::types::Slot, v: Seq<char>, s2: crate::types::Slot)
    requires
        crate::user_model::common::after_input(s, v, s2),
    ensures
        crate::user_model::cells::content_text(s2.cell.content) == v,
        crate::user_model::common::is_url(v) ==> (s2.link matches Some(
            crate::types::Link::External { target, tooltip },
        ) && target@ == v),
        !(crate::user_model::common::is_url(v) && s.link is None) ==> s2.cell.style == s.cell.style,
{
}

/// A link that was set is the link that is read.
pub proof fn law_link_read_back(
    s: crate::types::Slot,
    link: crate::types::Link,
    text: Option<Seq<char>>,
    s2: crate::types::Slot,
)
    requires
        crate::user_model::cells::with_link(s, link, text, s2),
    ensures
        s2.link == Some(link),
        text is None ==> s2.cell == s.cell,
{
}

/// The move that takes the block back.
pub open spec fn move_back(e: GridEdit) -> GridEdit {
    match e {
        GridEdit::Move { axis, start, count, delta } => GridEdit::Move {
            axis,
            start: (start + delta) as i32,
            count,
            delta: -delta as i32,
        },
        _ => e,
    }
}

proof fn lemma_move_region_back(e: GridEdit, m: MergeCell)
    requires
        e is Move,
        crate::edit::edit_ok(e),
        region_valid(m),
        crate::displace::edit_keeps_region(e, m),
    ensures
        crate::displace::displaced_region(e, m) is Some,
        crate::displace::edit_keeps_region(move_back(e), crate::displace::displaced_region(e, m).unwrap()),
        crate::displace::displaced_region(move_back(e), crate::displace::displaced_region(e, m).unwrap())
            == Some(m),
        region_valid(crate::displace::displaced_region(e, m).unwrap()),
{
    crate::displace::lemma_displaced_valid(e, m);
    match e {
        GridEdit::Move { axis, start, count, delta } => {
            let (s, n, d) = (start as int, count as int, delta as int);
            let s0 = crate::displace::span_start(axis, m);
            let l0 = crate::displace::span_end(axis, m);
            let f = crate::edit::move_line(s, n, d, s0);
            crate::edit::lemma_move_line_inverse(s, n, d, s0);
            assert(crate::displace::move_keeps_span(s, n, d, s0, l0));
            assert(crate::displace::move_keeps_span(s + d, n, -d, f, f + (l0 - s0)));
        },
        _ => {},
    }
}

proof fn lemma_move_regions_back(ms: Seq<MergeCell>, e: GridEdit)
    requires
        e is Move,
        crate::edit::edit_ok(e),
        forall|i: int| 0 <= i < ms.len() ==> region_valid(#[trigger] ms[i]),
        crate::displace::edit_keeps_regions(e, ms),
    ensures
        crate::displace::edit_keeps_regions(move_back(e), displaced_regions(ms, e)),
        displaced_regions(displaced_regions(ms, e), move_back(e)) == ms,
    decreases ms.len(),
{
    if ms.len() > 0 {
        let p = ms.drop_last();
        assert forall|i: int| 0 <= i < p.len() implies region_valid(#[trigger] p[i]) by {
            assert(p[i] == ms[i]);
        }
        assert(crate::displace::edit_keeps_regions(e, p)) by {
            assert forall|i: int| 0 <= i < p.len() implies crate::displace::edit_keeps_region(e, #[trigger] p[i]) by {
                assert(p[i] == ms[i]);
            }
        }
        lemma_move_regions_back(p, e);
        let m = ms.last();
        assert(region_valid(ms[ms.len() - 1]));
        assert(crate::displace::edit_keeps_region(e, ms[ms.len() - 1]));
        lemma_move_region_back(e, m);
        let m2 = crate::displace::displaced_region(e, m).unwrap();
        let dp = displaced_regions(p, e);
        assert(displaced_regions(ms, e) == dp.push(m2));
        assert(dp.push(m2).drop_last() =~= dp);
        assert(ms =~= p.push(m));
        assert forall|i: int| 0 <= i < dp.push(m2).len() implies crate::displace::edit_keeps_region(
            move_back(e),
            #[trigger] dp.push(m2)[i],
        ) by {
            if i < dp.len() {
                assert(dp.push(m2)[i] == dp[i]);
            }
        }
    }
}

/// Moving a block of rows or columns and then moving it back gives every
/// cell and every merged region back.
pub proof fn law_move_back(st: SheetState, e: GridEdit)
    requires
        e is Move,
        crate::edit::edit_ok(e),
        total_grid(st.grid),
        regions_wf(st.merges),
        crate::displace::edit_keeps_regions(e, st.merges),
    ensures
        crate::edit::edit_ok(move_back(e)),
        crate::displace::edit_keeps_regions(move_back(e), crate::worksheet::edited(st, e).merges),
        crate::worksheet::edited(crate::worksheet::edited(st, e), move_back(e)) == st,
{
    let e2 = move_back(e);
    lemma_move_regions_back(st.merges, e);
    let g1 = crate::edit::edited_grid(st.grid, e);
    let g2 = crate::edit::edited_grid(g1, e2);
    assert forall|k: (int, int)| #[trigger] g2[k] == st.grid[k] by {
        match e {
            GridEdit::Move { axis, start, count, delta } => {
                let (s, n, d) = (start as int, count as int, delta as int);
                let src2 = crate::edit::edit_source(e2, k.0, k.1);
                crate::edit::lemma_edit_source(e2, src2.0, src2.1, k);
                let src1 = crate::edit::edit_source(e, src2.0, src2.1);
                crate::edit::lemma_edit_source(e, src1.0, src1.1, src2);
                crate::edit::lemma_move_line_inverse(s, n, d, crate::edit::line_of(axis, k.0, k.1));
                assert(src1 == k);
            },
            _ => {},
        }
    }
    assert(g2 =~= st.grid);
}


/// Inserting lines: a region before the insertion point stays, a region from
/// it on moves on by the number of lines inserted, and a region the inserted
/// lines cut through grows by that number.
pub proof fn law_insert_rules(axis: Axis, start: i32, count: i32, m: MergeCell)
    requires
        1 <= count,
        region_valid(m),
    ensures
        (span_end(axis, m) < start ==> displaced_region(GridEdit::Insert { axis, start, count }, m) == Some(m)),
        (start <= span_start(axis, m) ==> displaced_region(GridEdit::Insert { axis, start, count }, m) == Some(
            with_span(axis, m, span_start(axis, m) + count, span_len(axis, m)),
        )),
        (span_start(axis, m) < start <= span_end(axis, m) ==> displaced_region(
            GridEdit::Insert { axis, start, count },
            m,
        ) == Some(with_span(axis, m, span_start(axis, m), span_len(axis, m) + count))),
{
    match axis {
        Axis::Rows => {},
        Axis::Columns => {},
    }
}

/// Inserting lines: every cell before the insertion point keeps what it held,
/// the inserted lines are blank, and every later cell holds what was `count`
/// lines before it.
pub proof fn law_insert_cells(
    g: Map<(int, int), crate::types::Slot>,
    axis: Axis,
    start: i32,
    count: i32,
    r: int,
    c: int,
)
    requires
        crate::edit::edit_ok(GridEdit::Insert { axis, start, count }),
        crate::grid::valid_position(r, c),
    ensures
        crate::edit::edited_grid(g, GridEdit::Insert { axis, start, count })[(r, c)] == if crate::edit::line_of(
            axis,
            r,
            c,
        ) < start {
            g[(r, c)]
        } else if crate::edit::line_of(axis, r, c) < start + count {
            crate::types::default_slot()
        } else {
            g[crate::edit::with_line(axis, r, c, crate::edit::line_of(axis, r, c) - count)]
        },
{
    match axis {
        Axis::Rows => {},
        Axis::Columns => {},
    }
}

proof fn lemma_insert_region_back(axis: Axis, start: i32, count: i32, m: MergeCell)
    requires
        1 <= start,
        1 <= count,
        start + count - 1 <= crate::edit::last_line(axis),
        region_valid(m),
        crate::displace::edit_keeps_region(GridEdit::Insert { axis, start, count }, m),
    ensures
        displaced_region(GridEdit::Insert { axis, start, count }, m) matches Some(m2) && displaced_region(
            GridEdit::Delete { axis, start, count },
            m2,
        ) == Some(m),
{
    match axis {
        Axis::Rows => {},
        Axis::Columns => {},
    }
}

proof fn lemma_insert_regions_back(axis: Axis, start: i32, count: i32, ms: Seq<MergeCell>)
    requires
        1 <= start,
        1 <= count,
        start + count - 1 <= crate::edit::last_line(axis),
        forall|i: int| 0 <= i < ms.len() ==> region_valid(#[trigger] ms[i]),
        crate::displace::edit_keeps_regions(GridEdit::Insert { axis, start, count }, ms),
    ensures
        displaced_regions(
            displaced_regions(ms, GridEdit::Insert { axis, start, count }),
            GridEdit::Delete { axis, start, count },
        ) == ms,
    decreases ms.len(),
{
    let e = GridEdit::Insert { axis, start, count };
    if ms.len() > 0 {
        let p = ms.drop_last();
        assert forall|i: int| 0 <= i < p.len() implies region_valid(#[trigger] p[i]) by {
            assert(p[i] == ms[i]);
        }
        assert(crate::displace::edit_keeps_regions(e, p)) by {
            assert forall|i: int| 0 <= i < p.len() implies crate::displace::edit_keeps_region(e, #[trigger] p[i]) by {
                assert(p[i] == ms[i]);
            }
        }
        lemma_insert_regions_back(axis, start, count, p);
        let m = ms.last();
        assert(region_valid(ms[ms.len() - 1]));
        assert(crate::displace::edit_keeps_region(e, ms[ms.len() - 1]));
        lemma_insert_region_back(axis, start, count, m);
        let m2 = crate::displace::displaced_region(e, m).unwrap();
        let dp = displaced_regions(p, e);
        assert(displaced_regions(ms, e) == dp.push(m2));
        assert(dp.push(m2).drop_last() =~= dp);
        assert(ms =~= p.push(m));
    }
}

/// Deleting the lines just inserted gives every cell and every merged region
/// back, when the insertion pushed nothing past the last line.
pub proof fn law_delete_undoes_insert(st: SheetState, axis: Axis, start: i32, count: i32)
    requires
        1 <= start,
        1 <= count,
        start + count - 1 <= crate::edit::last_line(axis),
        total_grid(st.grid),
        regions_wf(st.merges),
        forall|k: (int, int)| !crate::grid::valid_position(k.0, k.1) ==> #[trigger] st.grid[k]
            == crate::types::default_slot(),
        crate::displace::edit_keeps_regions(GridEdit::Insert { axis, start, count }, st.merges),
        !crate::worksheet::insert_loses_cells(st, axis, start as int, count as int),
    ensures
        crate::worksheet::edited(
            crate::worksheet::edited(st, GridEdit::Insert { axis, start, count }),
            GridEdit::Delete { axis, start, count },
        ) == st,
{
    let e1 = GridEdit::Insert { axis, start, count };
    let e2 = GridEdit::Delete { axis, start, count };
    lemma_insert_regions_back(axis, start, count, st.merges);
    let g1 = crate::edit::edited_grid(st.grid, e1);
    let g2 = crate::edit::edited_grid(g1, e2);
    assert forall|k: (int, int)| #[trigger] g2[k] == st.grid[k] by {
        let l = crate::edit::line_of(axis, k.0, k.1);
        if l >= start && l + count > crate::edit::last_line(axis) && crate::grid::valid_position(k.0, k.1) {
            assert(!(st.grid[(k.0, k.1)] != crate::types::default_slot()));
        }
        match axis {
            Axis::Rows => {},
            Axis::Columns => {},
        }
    }
    assert(g2 =~= st.grid);
}

/// Deleting lines: a region before the deleted band stays, a region after it
/// moves back by the band's size, a region inside it is dropped, and no
/// region is left as a single cell.
pub proof fn law_delete_rules(axis: Axis, start: i32, count: i32, m: MergeCell)
    requires
        1 <= start,
        1 <= count,
        region_valid(m),
    ensures
        (span_end(axis, m) < start ==> displaced_region(GridEdit::Delete { axis, start, count }, m) == Some(m)),
        (start + count <= span_start(axis, m) ==> displaced_region(GridEdit::Delete { axis, start, count }, m)
            == Some(with_span(axis, m, span_start(axis, m) - count, span_len(axis, m)))),
        (start <= span_start(axis, m) && span_end(axis, m) < start + count ==> displaced_region(
            GridEdit::Delete { axis, start, count },
            m,
        ) is None),
        (displaced_region(GridEdit::Delete { axis, start, count }, m) matches Some(m2) ==> !(m2.width == 1
            && m2.height == 1)),
{
    match axis {
        Axis::Rows => {},
        Axis::Columns => {},
    }
}

/// The region `m` with the span `[first, first + len)` along `axis`, kept
/// unless that leaves a single cell.
pub open spec fn kept_unless_single(axis: Axis, m: MergeCell, first: int, len: int) -> Option<MergeCell> {
    let m2 = with_span(axis, m, first, len);
    if m2.width == 1 && m2.height == 1 {
        None
    } else {
        Some(m2)
    }
}

/// Deleting lines that overlap a region only in part shrinks it by the lines
/// deleted from it: a band over its end leaves its lines before the band, a
/// band over its start leaves its lines after the band (now starting where
/// the band started), and a band strictly inside it takes `count` lines out
/// of its middle. The region is dropped only if a single cell is left.
pub proof fn law_delete_shrinks(axis: Axis, start: i32, count: i32, m: MergeCell)
    requires
        1 <= start,
        1 <= count,
        region_valid(m),
    ensures
        (span_start(axis, m) < start <= span_end(axis, m) < start + count ==> displaced_region(
            GridEdit::Delete { axis, start, count },
            m,
        ) == kept_unless_single(axis, m, span_start(axis, m), start - span_start(axis, m))),
        (start <= span_start(axis, m) < start + count <= span_end(axis, m) ==> displaced_region(
            GridEdit::Delete { axis, start, count },
            m,
        ) == kept_unless_single(axis, m, start as int, span_end(axis, m) - (start + count) + 1)),
        (span_start(axis, m) < start && start + count <= span_end(axis, m) ==> displaced_region(
            GridEdit::Delete { axis, start, count },
            m,
        ) == kept_unless_single(axis, m, span_start(axis, m), span_len(axis, m) - count)),
{
    match axis {
        Axis::Rows => {},
        Axis::Columns => {},
    }
}

/// Clearing the contents of an area empties the content and drops the link
/// of every cell whose row is in `[row, row + height)` and whose column is in
/// `[column, column + width)`, keeping its style; every other cell is left
/// as it was.
pub proof fn law_clear_contents_cells(st: SheetState, a: crate::types::Area, r: int, c: int)
    ensures
        ({
            let s = st.grid[(r, c)];
            let s2 = crate::worksheet::edited(
                st,
                GridEdit::ClearContents { area: crate::user_model::common::area_rect(a) },
            ).grid[(r, c)];
            if a.row <= r < a.row + a.height && a.column <= c < a.column + a.width {
                &&& s2.cell.content == crate::types::CellContent::Empty
                &&& s2.cell.style == s.cell.style
                &&& s2.link.is_none()
            } else {
                s2 == s
            }
        }),
{
}

/// Clearing all of an area resets every cell whose row is in
/// `[row, row + height)` and whose column is in `[column, column + width)` to
/// an untouched cell; every other cell is left as it was.
pub proof fn law_clear_all_cells(st: SheetState, a: crate::types::Area, r: int, c: int)
    ensures
        ({
            let s = st.grid[(r, c)];
            let s2 = crate::worksheet::edited(
                st,
                GridEdit::ClearAll { area: crate::user_model::common::area_rect(a) },
            ).grid[(r, c)];
            if a.row <= r < a.row + a.height && a.column <= c < a.column + a.width {
                s2 == crate::types::default_slot()
            } else {
                s2 == s
            }
        }),
{
}

/// An empty cell that exactly one range formula spills over shows the cell of
/// that range at the same offset from the range's first cell as the empty
/// cell has from the formula's cell.
pub proof fn law_spill_offset(
    g: Map<(int, int), crate::types::Slot>,
    k: (int, int),
    a: (int, int),
    p: (int, int),
    fuel: nat,
)
    requires
        g[k].cell.content == crate::types::CellContent::Empty,
        spills_over(g, a, k),
        forall|b: (int, int)| #[trigger] spills_over(g, b, k) ==> b == a,
        crate::formula::spill_size(crate::eval::formula_text(g[a])) is Some,
        crate::formula::parse_ref(
            crate::eval::formula_text(g[a]),
            1,
            crate::formula::colon_at(crate::eval::formula_text(g[a]), 1),
        ) == Some(p),
        fuel > 0,
    ensures
        cell_value(g, k, fuel) == cell_value(g, (p.0 + (k.0 - a.0), p.1 + (k.1 - a.1)), (fuel - 1) as nat),
{
    assert(spills_over(g, crate::eval::spill_anchor(g, k), k));
}

/// A merge of a rectangle inside the sheet, of more than one cell, that
/// shares no cell with an existing region, is made whenever no range formula
/// and no array formula has a range that meets the rectangle; formulas that
/// do not spill never stand in its way.
pub proof fn law_merge_allowed(st: SheetState, m: MergeCell)
    requires
        1 <= m.row,
        1 <= m.column,
        1 <= m.width,
        1 <= m.height,
        !(m.width == 1 && m.height == 1),
        m.row + m.height - 1 <= crate::types::LAST_ROW,
        m.column + m.width - 1 <= crate::types::LAST_COLUMN,
        forall|i: int| 0 <= i < st.merges.len() ==> !overlaps(#[trigger] st.merges[i], m),
        forall|r: int, c: int|
            #![trigger st.grid[(r, c)]]
            crate::grid::valid_position(r, c) ==> match st.grid[(r, c)].cell.content {
                crate::types::CellContent::Formula(f) => match crate::formula::spill_size(f@) {
                    Some(sz) => !(r < m.row + m.height && m.row < r + sz.1 && c < m.column + m.width && m.column
                        < c + sz.0),
                    None => true,
                },
                crate::types::CellContent::ArrayFormula { width, height, .. } => !(r < m.row + m.height && m.row
                    < r + height && c < m.column + m.width && m.column < c + width),
                _ => true,
            },
    ensures
        merge_error(st, m) is None,
{
    assert forall|r: int, c: int| !(#[trigger] st.grid[(r, c)] == st.grid[(r, c)] && crate::grid::valid_position(r, c)
        && match crate::model::spill_of(st.grid[(r, c)]) {
        Some(sz) => r <= crate::geometry::last_row(m) && m.row <= r + sz.1 - 1 && c <= crate::geometry::last_column(m)
            && m.column <= c + sz.0 - 1,
        None => false,
    }) by {
        if crate::grid::valid_position(r, c) {
            assert(st.grid[(r, c)] == st.grid[(r, c)]);
        }
    }
    assert(!crate::merge_cells::spill_blocks(st, m));
    assert(!overlaps_existing(st, m));
}

/// A merge of a rectangle inside the sheet, of more than one cell, that
/// shares no cell with an existing region, is refused with the array-formula
/// message exactly when the range of a range formula or of an array formula
/// meets the rectangle.
pub proof fn law_merge_refused_over_spill(st: SheetState, m: MergeCell, r: int, c: int)
    requires
        1 <= m.row,
        1 <= m.column,
        1 <= m.width,
        1 <= m.height,
        !(m.width == 1 && m.height == 1),
        m.row + m.height - 1 <= crate::types::LAST_ROW,
        m.column + m.width - 1 <= crate::types::LAST_COLUMN,
        forall|i: int| 0 <= i < st.merges.len() ==> !overlaps(#[trigger] st.merges[i], m),
        crate::grid::valid_position(r, c),
        match st.grid[(r, c)].cell.content {
            crate::types::CellContent::Formula(f) => match crate::formula::spill_size(f@) {
                Some(sz) => r < m.row + m.height && m.row < r + sz.1 && c < m.column + m.width && m.column < c
                    + sz.0,
                None => false,
            },
            crate::types::CellContent::ArrayFormula { width, height, .. } => r < m.row + m.height && m.row < r
                + height && c < m.column + m.width && m.column < c + width,
            _ => false,
        },
    ensures
        merge_error(st, m) == Some("Cannot merge cells that contain an array formula"@),
{
    assert(st.grid[(r, c)] == st.grid[(r, c)]);
    assert(crate::merge_cells::spill_blocks(st, m));
    assert(!overlaps_existing(st, m));
}

/// Arithmetic on computed values: numbers add, subtract and multiply as
/// integers while the result stays in range, a blank counts as zero, text is
/// refused, and an error in the left operand comes before one in the right.
pub proof fn law_arithmetic(x: int, y: int, t: Seq<char>, e1: crate::eval::ErrorKind, e2: crate::eval::ErrorKind)
    requires
        crate::eval::in_range(x),
        crate::eval::in_range(y),
    ensures
        crate::eval::in_range(x + y) ==> crate::eval::combine('+', Val::Num(x), Val::Num(y)) == Val::Num(x + y),
        crate::eval::in_range(x - y) ==> crate::eval::combine('-', Val::Num(x), Val::Num(y)) == Val::Num(x - y),
        crate::eval::in_range(x * y) ==> crate::eval::combine('*', Val::Num(x), Val::Num(y)) == Val::Num(x * y),
        !crate::eval::in_range(x * y) ==> crate::eval::combine('*', Val::Num(x), Val::Num(y)) == Val::Error(
            crate::eval::ErrorKind::Overflow,
        ),
        crate::eval::combine('+', Val::Blank, Val::Num(y)) == Val::Num(y),
        crate::eval::combine('-', Val::Num(x), Val::Blank) == Val::Num(x),
        crate::eval::combine('+', Val::Num(x), Val::Str(t)) == Val::Error(crate::eval::ErrorKind::Value),
        crate::eval::combine('*', Val::Error(e1), Val::Error(e2)) == Val::Error(e1),
        crate::eval::in_range(-x) && crate::eval::negate(Val::Num(x)) == Val::Num(-x),
{
}

/// Moving a block of lines carries a region inside the block by the move's
/// distance, shifts a region inside the lines passed over the other way by
/// the block's size, and leaves a region away from both in place.
pub proof fn law_move_rules(axis: Axis, start: i32, count: i32, delta: i32, m: MergeCell)
    requires
        1 <= count,
        region_valid(m),
    ensures
        (start <= span_start(axis, m) && span_end(axis, m) < start + count ==> displaced_region(
            GridEdit::Move { axis, start, count, delta },
            m,
        ) == Some(with_span(axis, m, span_start(axis, m) + delta, span_len(axis, m)))),
        (delta > 0 && start + count <= span_start(axis, m) && span_end(axis, m) < start + count + delta
            ==> displaced_region(GridEdit::Move { axis, start, count, delta }, m) == Some(
            with_span(axis, m, span_start(axis, m) - count, span_len(axis, m)),
        )),
        (delta < 0 && start + delta <= span_start(axis, m) && span_end(axis, m) < start ==> displaced_region(
            GridEdit::Move { axis, start, count, delta },
            m,
        ) == Some(with_span(axis, m, span_start(axis, m) + count, span_len(axis, m)))),
        (span_end(axis, m) < move_lo(start as int, count as int, delta as int) || span_start(axis, m) > move_hi(
            start as int,
            count as int,
            delta as int,
        ) ==> displaced_region(GridEdit::Move { axis, start, count, delta }, m) == Some(m)),
{
    match axis {
        Axis::Rows => {},
        Axis::Columns => {},
    }
}

} // verus!
