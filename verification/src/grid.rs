use vstd::prelude::*;

use crate::types::{default_slot, Slot, LAST_COLUMN, LAST_ROW};

verus! {

/// One stored grid position.
#[derive(Debug)]
pub struct CellEntry {
    pub row: i32,
    pub column: i32,
    pub slot: Slot,
}

/// A position inside the sheet.
pub open spec fn valid_position(r: int, c: int) -> bool {
    1 <= r <= LAST_ROW && 1 <= c <= LAST_COLUMN
}

pub open spec fn has_key(e: CellEntry, r: int, c: int) -> bool {
    e.row == r && e.column == c
}

/// What the entries say is stored at `(r, c)`: the last entry for that
/// position, or the untouched slot.
pub open spec fn lookup(s: Seq<CellEntry>, r: int, c: int) -> Slot
    decreases s.len(),
{
    if s.len() == 0 {
        default_slot()
    } else if has_key(s.last(), r, c) {
        s.last().slot
    } else {
        lookup(s.drop_last(), r, c)
    }
}

/// Every entry sits inside the sheet and no position is stored twice.
pub open spec fn entries_wf(s: Seq<CellEntry>) -> bool {
    &&& forall|i: int| 0 <= i < s.len() ==> valid_position(#[trigger] s[i].row as int, s[i].column as int)
    &&& forall|i: int, j: int|
        0 <= i < j < s.len() ==> !has_key(#[trigger] s[i], #[trigger] s[j].row as int, s[j].column as int)
}

/// The grid that the entries describe: every position of the plane mapped to
/// what it holds.
pub open spec fn grid_of(s: Seq<CellEntry>) -> Map<(int, int), Slot> {
    Map::new(|k: (int, int)| true, |k: (int, int)| lookup(s, k.0, k.1))
}

pub proof fn lemma_lookup_push(s: Seq<CellEntry>, e: CellEntry, r: int, c: int)
    ensures
        lookup(s.push(e), r, c) == if has_key(e, r, c) { e.slot } else { lookup(s, r, c) },
{
    assert(s.push(e).drop_last() =~= s);
}

/// Entries after position `k` that do not hold `(r, c)` do not change its lookup.
pub proof fn lemma_lookup_prefix(s: Seq<CellEntry>, k: int, r: int, c: int)
    requires
        0 <= k <= s.len(),
        forall|j: int| k <= j < s.len() ==> !has_key(#[trigger] s[j], r, c),
    ensures
        lookup(s, r, c) == lookup(s.take(k), r, c),
    decreases s.len(),
{
    if s.len() == k {
        assert(s.take(k) =~= s);
    } else {
        assert(!has_key(s[s.len() - 1], r, c));
        lemma_lookup_prefix(s.drop_last(), k, r, c);
        assert(s.drop_last().take(k) =~= s.take(k));
    }
}

/// A position held by no entry is untouched.
pub proof fn lemma_lookup_absent(s: Seq<CellEntry>, r: int, c: int)
    requires
        forall|j: int| 0 <= j < s.len() ==> !has_key(#[trigger] s[j], r, c),
    ensures
        lookup(s, r, c) == default_slot(),
{
    lemma_lookup_prefix(s, 0, r, c);
    assert(s.take(0) =~= Seq::<CellEntry>::empty());
}

/// With unique positions, an entry is what its position holds.
pub proof fn lemma_lookup_entry(s: Seq<CellEntry>, i: int)
    requires
        entries_wf(s),
        0 <= i < s.len(),
    ensures
        lookup(s, s[i].row as int, s[i].column as int) == s[i].slot,
{
    let r = s[i].row as int;
    let c = s[i].column as int;
    assert forall|j: int| i + 1 <= j < s.len() implies !has_key(#[trigger] s[j], r, c) by {
        assert(!has_key(s[i], s[j].row as int, s[j].column as int));
    }
    lemma_lookup_prefix(s, i + 1, r, c);
    let t = s.take(i + 1);
    assert(t.last() == s[i]);
}

/// Replacing the entry that holds a position changes that position only.
pub proof fn lemma_lookup_update(s: Seq<CellEntry>, i: int, e: CellEntry, r: int, c: int)
    requires
        entries_wf(s),
        0 <= i < s.len(),
        e.row == s[i].row,
        e.column == s[i].column,
    ensures
        lookup(s.update(i, e), r, c) == if has_key(e, r, c) { e.slot } else { lookup(s, r, c) },
    decreases s.len(),
{
    let t = s.update(i, e);
    if i == s.len() - 1 {
        assert(t.drop_last() =~= s.drop_last());
    } else {
        assert(t.drop_last() =~= s.drop_last().update(i, e));
        assert(entries_wf(s.drop_last()));
        lemma_lookup_update(s.drop_last(), i, e, r, c);
        if has_key(e, r, c) {
            assert(!has_key(s[i], s.last().row as int, s.last().column as int));
        }
    }
}

/// The entries stay within the sheet and unique after `e` is pushed for a
/// position that no entry holds.
pub proof fn lemma_wf_push(s: Seq<CellEntry>, e: CellEntry)
    requires
        entries_wf(s),
        valid_position(e.row as int, e.column as int),
        forall|j: int| 0 <= j < s.len() ==> !has_key(#[trigger] s[j], e.row as int, e.column as int),
    ensures
        entries_wf(s.push(e)),
{
    let t = s.push(e);
    assert forall|i: int, j: int| 0 <= i < j < t.len() implies !has_key(
        #[trigger] t[i],
        #[trigger] t[j].row as int,
        t[j].column as int,
    ) by {
        if j == s.len() {
            assert(!has_key(s[i], e.row as int, e.column as int));
        } else {
            assert(t[i] == s[i] && t[j] == s[j]);
        }
    }
}

/// Index of the entry holding `(r, c)`, if any.
pub fn find_entry(cells: &Vec<CellEntry>, r: i32, c: i32) -> (res: Option<usize>)
    ensures
        match res {
            Some(i) => i < cells@.len() && has_key(cells@[i as int], r as int, c as int),
            None => forall|j: int| 0 <= j < cells@.len() ==> !has_key(#[trigger] cells@[j], r as int, c as int),
        },
{
    let n = cells.len();
    let mut i: usize = 0;
    while i < n
        invariant
            n == cells@.len(),
            i <= n,
            forall|j: int| 0 <= j < i ==> !has_key(#[trigger] cells@[j], r as int, c as int),
        decreases n - i,
    {
        if cells[i].row == r && cells[i].column == c {
            return Some(i);
        }
        i = i + 1;
    }
    None
}

/// A copy of what `(r, c)` holds.
pub fn read_slot(cells: &Vec<CellEntry>, r: i32, c: i32) -> (res: Slot)
    requires
        entries_wf(cells@),
    ensures
        res == lookup(cells@, r as int, c as int),
{
    match find_entry(cells, r, c) {
        Some(i) => {
            proof {
                lemma_lookup_entry(cells@, i as int);
            }
            cells[i].slot.duplicate()
        },
        None => {
            proof {
                lemma_lookup_absent(cells@, r as int, c as int);
            }
            crate::types::new_default_slot()
        },
    }
}

/// Stores `slot` at `(r, c)`.
pub fn write_slot(cells: &mut Vec<CellEntry>, r: i32, c: i32, slot: Slot)
    requires
        entries_wf(old(cells)@),
        valid_position(r as int, c as int),
    ensures
        entries_wf(final(cells)@),
        grid_of(final(cells)@) == grid_of(old(cells)@).insert((r as int, c as int), slot),
{
    let ghost s0 = cells@;
    let ghost e = CellEntry { row: r, column: c, slot };
    match find_entry(cells, r, c) {
        Some(i) => {
            cells.set(i, CellEntry { row: r, column: c, slot });
            proof {
                assert(cells@ == s0.update(i as int, e));
                assert forall|a: int, b: int| 0 <= a < b < cells@.len() implies !has_key(
                    #[trigger] cells@[a],
                    #[trigger] cells@[b].row as int,
                    cells@[b].column as int,
                ) by {
                    assert(!has_key(s0[a], s0[b].row as int, s0[b].column as int));
                }
                assert forall|k: (int, int)| #[trigger] grid_of(cells@)[k] == grid_of(s0).insert(
                    (r as int, c as int),
                    slot,
                )[k] by {
                    lemma_lookup_update(s0, i as int, e, k.0, k.1);
                }
                assert(grid_of(cells@) =~= grid_of(s0).insert((r as int, c as int), slot));
            }
        },
        None => {
            cells.push(CellEntry { row: r, column: c, slot });
            proof {
                lemma_wf_push(s0, e);
                assert forall|k: (int, int)| #[trigger] grid_of(cells@)[k] == grid_of(s0).insert(
                    (r as int, c as int),
                    slot,
                )[k] by {
                    lemma_lookup_push(s0, e, k.0, k.1);
                }
                assert(grid_of(cells@) =~= grid_of(s0).insert((r as int, c as int), slot));
            }
        },
    }
}

} // verus!
