# Merged cells for a spreadsheet model, verified with Verus

A workbook model in which rectangles of cells can be merged into one region,
queried, and unmerged; every edit is recorded so that it can be undone and
redone. Every executable function carries a contract that Verus proves.

Layout of `src/`:

- `types.rs` — values: `MergeCell`, `Area`, `Cell`, `Style`, `Link`, `Slot`;
  a cell holds text, a formula, or an array formula entered over a range
  (kept in the range's top-left cell with the range's size).
- `geometry.rs` — rectangles: overlap, containment, valid regions.
- `grid.rs` — the stored cells of a sheet and the grid they describe.
- `edit.rs`, `displace.rs` — edits of the whole grid (clearing a range,
  inserting, deleting or moving rows and columns) and how merged regions
  follow them.
- `formula.rs` — cell references (`B3`, `$b$3`) and formulas that spill over
  a range (`=B1:B3`).
- `eval.rs` — the values of formulas: integer arithmetic over references,
  computed from the grid whenever a value is read, so that every edit (a
  merge among them) is seen by every formula.
- `names.rs` — A1 names of cells.
- `worksheet.rs` — a sheet: cells, merged regions, and their invariants.
- `model.rs`, `merge_cells.rs` — the workbook and its merge operations.
- `user_model/` — the user-facing model with its undo and redo history.
- `laws.rs` — properties that relate several operations (undo after merge,
  unmerge and every other edit; queries and values after a merge; clearing;
  inserting, deleting and moving lines and moving back).

The invariants of a sheet: every merged region lies inside the sheet and spans
more than one cell, no two regions share a cell, and covered cells (the cells
of a region other than its anchor) hold no content.
