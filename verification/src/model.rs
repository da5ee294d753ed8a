//! The workbook model: its worksheets and the operations that read them.
use vstd::prelude::*;

use crate::formula::{formula_spill_size, spill_size};
use crate::types::{CellContent, CellStructure, Slot};
use crate::worksheet::{SheetState, Worksheet};

verus! {

/// A workbook of worksheets.
#[derive(Debug)]
pub struct Model {
    pub worksheets: Vec<Worksheet>,
}

/// The size `(width, height)` of the range that what a slot holds spreads
/// over, if it is a spilling formula or an array formula.
pub open spec fn spill_of(s: Slot) -> Option<(int, int)> {
    match s.cell.content {
        CellContent::Formula(f) => spill_size(f@),
        CellContent::ArrayFormula { width, height, .. } => Some((width as int, height as int)),
        _ => None,
    }
}

/// How a slot takes part in an array formula.
pub open spec fn structure_of(s: Slot) -> CellStructure {
    match s.cell.content {
        CellContent::Formula(f) => match spill_size(f@) {
            Some(sz) => CellStructure::DynamicFormula { width: sz.0 as i32, height: sz.1 as i32 },
            None => CellStructure::Single,
        },
        CellContent::ArrayFormula { width, height, .. } => CellStructure::ArrayFormula { width, height },
        _ => CellStructure::Single,
    }
}

pub open spec fn invalid_sheet_message() -> Seq<char> {
    "Invalid sheet index"@
}

impl Model {
    pub open spec fn states(&self) -> Seq<SheetState> {
        Seq::new(self.worksheets@.len(), |i: int| self.worksheets@[i].state())
    }

    pub open spec fn wf(&self) -> bool {
        forall|i: int| 0 <= i < self.worksheets@.len() ==> (#[trigger] self.worksheets@[i]).wf()
    }

    /// A workbook with one empty worksheet.
    pub fn new_empty() -> (m: Model)
        ensures
            m.wf(),
            m.states().len() == 1,
            m.states()[0].merges == Seq::<crate::types::MergeCell>::empty(),
            forall|k: (int, int)| #[trigger] m.states()[0].grid[k] == crate::types::default_slot(),
    {
        let mut worksheets = Vec::new();
        worksheets.push(Worksheet::new());
        Model { worksheets }
    }

    /// The worksheet at index `sheet`.
    pub fn worksheet(&self, sheet: u32) -> (r: Result<&Worksheet, String>)
        ensures
            match r {
                Ok(w) => sheet < self.worksheets@.len() && *w == self.worksheets@[sheet as int],
                Err(e) => sheet >= self.worksheets@.len() && e@ == invalid_sheet_message(),
            },
    {
        if (sheet as usize) < self.worksheets.len() {
            Ok(&self.worksheets[sheet as usize])
        } else {
            Err(String::from_str("Invalid sheet index"))
        }
    }

    /// How the cell at `(row, column)` takes part in an array formula.
    pub fn get_cell_structure(&self, sheet: u32, row: i32, column: i32) -> (r: Result<
        CellStructure,
        String,
    >)
        requires
            self.wf(),
        ensures
            match r {
                Ok(s) => sheet < self.worksheets@.len() && s == structure_of(
                    self.states()[sheet as int].grid[(row as int, column as int)],
                ),
                Err(e) => sheet >= self.worksheets@.len() && e@ == invalid_sheet_message(),
            },
    {
        let worksheet = self.worksheet(sheet)?;
        assert(worksheet.wf());
        let slot = worksheet.slot(row, column);
        match &slot.cell.content {
            CellContent::Formula(f) => match formula_spill_size(f.as_str()) {
                Some((width, height)) => Ok(CellStructure::DynamicFormula { width, height }),
                None => Ok(CellStructure::Single),
            },
            CellContent::ArrayFormula { width, height, .. } => Ok(
                CellStructure::ArrayFormula { width: *width, height: *height },
            ),
            _ => Ok(CellStructure::Single),
        }
    }
}

} // verus!
