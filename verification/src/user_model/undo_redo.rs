//! Taking changes back and making them again.
use vstd::prelude::*;

use crate::merge_cells::overlaps_any;
use crate::model::Model;
use crate::types::MergeCell;
use crate::user_model::common::UserModel;
use crate::user_model::history::{diffs_state, redo_step, redone, undo_step, undone, Diff};

verus! {

impl Model {
    /// Takes back the change `d`. On success returns the entry to keep for
    /// redo; otherwise gives `d` back untouched with the reason.
    fn undo_diff(&mut self, d: Diff) -> (r: Result<Diff, (Diff, String)>)
        requires
            old(self).wf(),
            d.wf(old(self).worksheets@.len() as int),
        ensures
            final(self).wf(),
            final(self).worksheets@.len() == old(self).worksheets@.len(),
            match undo_step(old(self).states(), d.state()) {
                Some((sheets, d2)) => match r {
                    Ok(x) => final(self).states() == sheets && x.state() == d2 && x.wf(
                        old(self).worksheets@.len() as int,
                    ),
                    Err(_) => false,
                },
                None => match r {
                    Ok(_) => false,
                    Err((x, _)) => x == d && *final(self) == *old(self),
                },
            },
    {
        let ghost before = self.worksheets@;
        match d {
            Diff::MergeCells { sheet, row, column, width, height, old_covered } => {
                let m = MergeCell { row, column, width, height };
                assert(self.worksheets@[sheet as int].wf());
                let found = self.worksheets[sheet as usize].merge_at(row, column);
                let in_place = match found {
                    Some(x) => x == m,
                    None => false,
                };
                if !in_place {
                    return Err(
                        (
                            Diff::MergeCells { sheet, row, column, width, height, old_covered },
                            String::from_str("The merged region to undo is not in place"),
                        ),
                    );
                }
                self.worksheets[sheet as usize].remove_merge_at(row, column);
                self.worksheets[sheet as usize].restore_covered(m, &old_covered);
                proof {
                    assert(self.states() =~= undo_step(old(self).states(), d.state()).unwrap().0);
                }
                Ok(Diff::MergeCells { sheet, row, column, width, height, old_covered })
            },
            Diff::UnmergeCells { sheet, row, column, width, height } => {
                let m = MergeCell { row, column, width, height };
                assert(self.worksheets@[sheet as int].wf());
                let existing = self.worksheets[sheet as usize].merge_cells_parsed();
                if overlaps_any(&existing, &m) {
                    return Err(
                        (
                            Diff::UnmergeCells { sheet, row, column, width, height },
                            String::from_str("The merged region to restore overlaps another one"),
                        ),
                    );
                }
                self.worksheets[sheet as usize].apply_merge(m);
                proof {
                    assert(self.states() =~= undo_step(old(self).states(), d.state()).unwrap().0);
                }
                Ok(Diff::UnmergeCells { sheet, row, column, width, height })
            },
            Diff::SwapSheet { sheet, other } => {
                let mut other = other;
                std::mem::swap(&mut self.worksheets[sheet as usize], &mut other);
                proof {
                    assert(self.states() =~= undo_step(old(self).states(), d.state()).unwrap().0);
                }
                Ok(Diff::SwapSheet { sheet, other })
            },
        }
    }

    /// Makes the change `d` again. On success returns the entry to keep for
    /// undo; otherwise gives `d` back untouched with the reason.
    fn redo_diff(&mut self, d: Diff) -> (r: Result<Diff, (Diff, String)>)
        requires
            old(self).wf(),
            d.wf(old(self).worksheets@.len() as int),
        ensures
            final(self).wf(),
            final(self).worksheets@.len() == old(self).worksheets@.len(),
            match redo_step(old(self).states(), d.state()) {
                Some((sheets, d2)) => match r {
                    Ok(x) => final(self).states() == sheets && x.state() == d2 && x.wf(
                        old(self).worksheets@.len() as int,
                    ),
                    Err(_) => false,
                },
                None => match r {
                    Ok(_) => false,
                    Err((x, _)) => x == d && *final(self) == *old(self),
                },
            },
    {
        match d {
            Diff::MergeCells { sheet, row, column, width, height, old_covered } => {
                let m = MergeCell { row, column, width, height };
                assert(self.worksheets@[sheet as int].wf());
                let existing = self.worksheets[sheet as usize].merge_cells_parsed();
                if overlaps_any(&existing, &m) {
                    return Err(
                        (
                            Diff::MergeCells { sheet, row, column, width, height, old_covered },
                            String::from_str("The merged region to restore overlaps another one"),
                        ),
                    );
                }
                self.worksheets[sheet as usize].apply_merge(m);
                proof {
                    assert(self.states() =~= redo_step(old(self).states(), d.state()).unwrap().0);
                }
                Ok(Diff::MergeCells { sheet, row, column, width, height, old_covered })
            },
            Diff::UnmergeCells { sheet, row, column, width, height } => {
                let m = MergeCell { row, column, width, height };
                assert(self.worksheets@[sheet as int].wf());
                let found = self.worksheets[sheet as usize].merge_at(row, column);
                let in_place = match found {
                    Some(x) => x == m,
                    None => false,
                };
                if !in_place {
                    return Err(
                        (
                            Diff::UnmergeCells { sheet, row, column, width, height },
                            String::from_str("The merged region to remove is not in place"),
                        ),
                    );
                }
                self.worksheets[sheet as usize].remove_merge_at(row, column);
                proof {
                    assert(self.states() =~= redo_step(old(self).states(), d.state()).unwrap().0);
                }
                Ok(Diff::UnmergeCells { sheet, row, column, width, height })
            },
            Diff::SwapSheet { sheet, other } => {
                let mut other = other;
                std::mem::swap(&mut self.worksheets[sheet as usize], &mut other);
                proof {
                    assert(self.states() =~= redo_step(old(self).states(), d.state()).unwrap().0);
                }
                Ok(Diff::SwapSheet { sheet, other })
            },
        }
    }
}

impl UserModel {
    /// Takes back the latest change. Nothing happens when there is none.
    pub fn undo(&mut self) -> (r: Result<(), String>)
        requires
            old(self).wf(),
        ensures
            final(self).wf(),
            match undone(old(self).state()) {
                Some(u) => r is Ok && final(self).state() == u,
                None => r is Err && final(self).state() == old(self).state(),
            },
    {
        let ghost undo0 = self.undo_stack@;
        let ghost redo0 = self.redo_stack@;
        match self.undo_stack.pop() {
            None => Ok(()),
            Some(d) => {
                proof {
                    assert(undo0.last() == d);
                    assert(d.wf(self.model.worksheets@.len() as int));
                    assert(diffs_state(undo0).last() == d.state());
                    assert(diffs_state(self.undo_stack@) =~= diffs_state(undo0).drop_last());
                }
                match self.model.undo_diff(d) {
                    Ok(d2) => {
                        self.redo_stack.push(d2);
                        proof {
                            assert(diffs_state(self.redo_stack@) =~= diffs_state(redo0).push(d2.state()));
                            assert forall|i: int| 0 <= i < self.redo_stack@.len() implies (
                            #[trigger] self.redo_stack@[i]).wf(self.model.worksheets@.len() as int) by {
                                if i < redo0.len() {
                                    assert(self.redo_stack@[i] == redo0[i]);
                                }
                            }
                            assert forall|i: int| 0 <= i < self.undo_stack@.len() implies (
                            #[trigger] self.undo_stack@[i]).wf(self.model.worksheets@.len() as int) by {
                                assert(self.undo_stack@[i] == undo0[i]);
                            }
                        }
                        Ok(())
                    },
                    Err((d, e)) => {
                        self.undo_stack.push(d);
                        proof {
                            assert(self.undo_stack@ =~= undo0);
                        }
                        Err(e)
                    },
                }
            },
        }
    }

    /// Makes the latest undone change again. Nothing happens when there is none.
    pub fn redo(&mut self) -> (r: Result<(), String>)
        requires
            old(self).wf(),
        ensures
            final(self).wf(),
            match redone(old(self).state()) {
                Some(u) => r is Ok && final(self).state() == u,
                None => r is Err && final(self).state() == old(self).state(),
            },
    {
        let ghost undo0 = self.undo_stack@;
        let ghost redo0 = self.redo_stack@;
        match self.redo_stack.pop() {
            None => Ok(()),
            Some(d) => {
                proof {
                    assert(redo0.last() == d);
                    assert(d.wf(self.model.worksheets@.len() as int));
                    assert(diffs_state(redo0).last() == d.state());
                    assert(diffs_state(self.redo_stack@) =~= diffs_state(redo0).drop_last());
                }
                match self.model.redo_diff(d) {
                    Ok(d2) => {
                        self.undo_stack.push(d2);
                        proof {
                            assert(diffs_state(self.undo_stack@) =~= diffs_state(undo0).push(d2.state()));
                            assert forall|i: int| 0 <= i < self.undo_stack@.len() implies (
                            #[trigger] self.undo_stack@[i]).wf(self.model.worksheets@.len() as int) by {
                                if i < undo0.len() {
                                    assert(self.undo_stack@[i] == undo0[i]);
                                }
                            }
                            assert forall|i: int| 0 <= i < self.redo_stack@.len() implies (
                            #[trigger] self.redo_stack@[i]).wf(self.model.worksheets@.len() as int) by {
                                assert(self.redo_stack@[i] == redo0[i]);
                            }
                        }
                        Ok(())
                    },
                    Err((d, e)) => {
                        self.redo_stack.push(d);
                        proof {
                            assert(self.redo_stack@ =~= redo0);
                        }
                        Err(e)
                    },
                }
            },
        }
    }
}

} // verus!
