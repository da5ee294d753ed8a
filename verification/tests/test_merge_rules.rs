use lib::{Area, CellStructure, Link, MergeCell, Model, UserModel};

fn region(row: i32, column: i32, width: i32, height: i32) -> MergeCell {
    MergeCell {
        row,
        column,
        width,
        height,
    }
}

fn area(row: i32, column: i32, width: i32, height: i32) -> Area {
    Area {
        sheet: 0,
        row,
        column,
        width,
        height,
    }
}

fn value(model: &UserModel, row: i32, column: i32) -> String {
    model.get_formatted_cell_value(0, row, column).unwrap()
}

fn external(target: &str) -> Link {
    Link::External {
        target: target.to_string(),
        tooltip: None,
    }
}

#[test]
fn merge_error_messages_follow_the_check_order() {
    let mut model = UserModel::new_empty();
    assert_eq!(
        model.merge_cells(1, 1, 1, 2, 2),
        Err("Invalid sheet index".to_string())
    );
    assert_eq!(
        model.merge_cells(0, 0, 1, 2, 2),
        Err("Merge range is out of bounds".to_string())
    );
    assert_eq!(
        model.merge_cells(0, 1_048_576, 1, 1, 2),
        Err("Merge range is out of bounds".to_string())
    );
    assert_eq!(
        model.merge_cells(0, 1, 16_384, 2, 1),
        Err("Merge range is out of bounds".to_string())
    );
    assert_eq!(
        model.merge_cells(0, 2, 2, 0, 2),
        Err("Merge width and height must be at least 1".to_string())
    );
    assert_eq!(
        model.merge_cells(0, 2, 2, 1, 1),
        Err("Cannot merge a single cell".to_string())
    );
    model.merge_cells(0, 2, 2, 2, 2).unwrap();
    assert_eq!(
        model.merge_cells(0, 3, 3, 2, 2),
        Err("Merge range overlaps an existing merged region".to_string())
    );
    model.set_user_input(0, 10, 1, "=C10:D12").unwrap();
    assert_eq!(
        model.merge_cells(0, 12, 2, 2, 1),
        Err("Cannot merge cells that contain an array formula".to_string())
    );
    // Extreme sizes do not overflow.
    assert!(model.merge_cells(0, i32::MAX, i32::MAX, i32::MAX, i32::MAX).is_err());
    assert_eq!(model.get_merge_cells(0).unwrap(), vec![region(2, 2, 2, 2)]);
}

#[test]
fn merge_at_the_last_row_and_column_is_in_bounds() {
    let mut model = UserModel::new_empty();
    model.merge_cells(0, 1_048_575, 16_383, 2, 2).unwrap();
    assert_eq!(
        model.get_merge_cell(0, 1_048_576, 16_384).unwrap(),
        Some(region(1_048_575, 16_383, 2, 2))
    );
}

#[test]
fn base_merge_returns_the_discarded_content_row_by_row() {
    let mut model = Model::new_empty();
    let mut user = UserModel::new_empty();
    user.set_user_input(0, 1, 1, "anchor").unwrap();
    user.set_user_input(0, 1, 3, "right").unwrap();
    user.set_user_input(0, 2, 2, "=A1").unwrap();
    model = user.model;
    let old = model.merge_cells(0, 1, 1, 3, 2).unwrap();
    assert_eq!(old.len(), 2);
    assert_eq!(old[0].len(), 3);
    assert!(old[0][0].is_none());
    assert!(old[0][1].is_none());
    assert!(old[0][2].is_some());
    assert!(old[1][0].is_none());
    assert!(old[1][1].is_some());
    assert!(old[1][2].is_none());
}

#[test]
fn every_cell_of_a_region_resolves_to_it_and_no_other_does() {
    let mut model = UserModel::new_empty();
    model.merge_cells(0, 3, 2, 2, 3).unwrap();
    for row in 1..8 {
        for column in 1..6 {
            let inside = (3..6).contains(&row) && (2..4).contains(&column);
            let expected = if inside { Some(region(3, 2, 2, 3)) } else { None };
            assert_eq!(model.get_merge_cell(0, row, column).unwrap(), expected);
        }
    }
}

#[test]
fn merge_keeps_the_covered_links() {
    let mut model = UserModel::new_empty();
    model.set_user_input(0, 1, 2, "linked").unwrap();
    model.set_cell_link(0, 1, 2, external("https://a.example/"), None).unwrap();
    model.merge_cells(0, 1, 1, 2, 1).unwrap();
    assert_eq!(value(&model, 1, 2), "");
    assert_eq!(
        model.get_cell_link(0, 1, 2),
        Ok(Some(external("https://a.example/")))
    );
    model.undo().unwrap();
    assert_eq!(value(&model, 1, 2), "linked");
}

#[test]
fn unmerge_undo_puts_the_region_back_at_the_end() {
    let mut model = UserModel::new_empty();
    model.merge_cells(0, 1, 1, 2, 2).unwrap();
    model.merge_cells(0, 5, 5, 2, 2).unwrap();
    model.set_user_input(0, 1, 1, "first").unwrap();
    model.unmerge_cells(0, 2, 2).unwrap();
    assert_eq!(model.get_merge_cells(0).unwrap(), vec![region(5, 5, 2, 2)]);
    model.undo().unwrap();
    assert_eq!(
        model.get_merge_cells(0).unwrap(),
        vec![region(5, 5, 2, 2), region(1, 1, 2, 2)]
    );
    assert_eq!(value(&model, 1, 1), "first");
    model.redo().unwrap();
    assert_eq!(model.get_merge_cells(0).unwrap(), vec![region(5, 5, 2, 2)]);
}

#[test]
fn an_edit_undoes_and_redoes_exactly() {
    let mut model = UserModel::new_empty();
    model.set_user_input(0, 4, 4, "before").unwrap();
    model.set_user_input(0, 4, 4, "after").unwrap();
    assert!(model.can_undo());
    assert!(!model.can_redo());
    model.undo().unwrap();
    assert_eq!(model.get_cell_content(0, 4, 4).unwrap(), "before");
    assert!(model.can_redo());
    model.redo().unwrap();
    assert_eq!(model.get_cell_content(0, 4, 4).unwrap(), "after");
    // A new change drops the redo history.
    model.undo().unwrap();
    model.set_user_input(0, 1, 1, "other").unwrap();
    assert!(!model.can_redo());
}

#[test]
fn undo_and_redo_without_history_do_nothing() {
    let mut model = UserModel::new_empty();
    assert_eq!(model.undo(), Ok(()));
    assert_eq!(model.redo(), Ok(()));
    assert!(!model.can_undo());
}

#[test]
fn covered_cells_cannot_be_written_but_the_anchor_can() {
    let mut model = UserModel::new_empty();
    model.merge_cells(0, 2, 2, 3, 3).unwrap();
    let message = "cannot edit a cell inside a merged region; edit the anchor at B2".to_string();
    assert_eq!(model.set_user_input(0, 3, 3, "x"), Err(message.clone()));
    assert_eq!(model.set_user_input(0, 2, 4, "x"), Err(message.clone()));
    assert_eq!(
        model.set_cell_link(0, 4, 4, external("https://b.example/"), None),
        Err(message)
    );
    assert_eq!(value(&model, 3, 3), "");
    model.set_user_input(0, 2, 2, "anchor").unwrap();
    assert_eq!(value(&model, 2, 2), "anchor");
    model.set_user_input(0, 5, 5, "outside").unwrap();
    assert_eq!(value(&model, 5, 5), "outside");
}

#[test]
fn the_refusal_names_the_anchor_in_a1_notation() {
    let mut model = UserModel::new_empty();
    model.merge_cells(0, 27, 28, 2, 2).unwrap();
    model.merge_cells(0, 1, 16_383, 2, 1).unwrap();
    assert_eq!(
        model.set_user_input(0, 28, 29, "x"),
        Err("cannot edit a cell inside a merged region; edit the anchor at AB27".to_string())
    );
    assert_eq!(
        model.set_user_input(0, 1, 16_384, "x"),
        Err("cannot edit a cell inside a merged region; edit the anchor at XFC1".to_string())
    );
}

#[test]
fn input_errors_name_the_bad_part() {
    let mut model = UserModel::new_empty();
    assert_eq!(
        model.set_user_input(3, 1, 1, "x"),
        Err("Invalid sheet index".to_string())
    );
    assert_eq!(
        model.set_user_input(0, 0, 1, "x"),
        Err("Invalid row".to_string())
    );
    assert_eq!(
        model.set_user_input(0, 1, 16_385, "x"),
        Err("Invalid column".to_string())
    );
    assert_eq!(
        model.delete_cell_link(0, 1_048_577, 1),
        Err("Invalid row".to_string())
    );
    assert!(!model.can_undo());
}

#[test]
fn typed_input_is_kept_as_typed() {
    let mut model = UserModel::new_empty();
    model.set_user_input(0, 1, 1, "10").unwrap();
    model.set_user_input(0, 1, 2, "=A1*2").unwrap();
    assert_eq!(value(&model, 1, 1), "10");
    assert_eq!(model.get_cell_content(0, 1, 2).unwrap(), "=A1*2");
    assert_eq!(value(&model, 1, 2), "20");
    assert_eq!(model.get_cell_content(0, 9, 9).unwrap(), "");
}

#[test]
fn emptying_a_cell_drops_its_link_but_not_its_style() {
    let mut model = UserModel::new_empty();
    model.set_user_input(0, 1, 1, "text").unwrap();
    model.set_cell_link(0, 1, 1, external("https://c.example/"), None).unwrap();
    model.update_range_style(&area(1, 1, 1, 1), "font.u", "true").unwrap();
    model.set_user_input(0, 1, 1, "").unwrap();
    assert_eq!(model.get_cell_link(0, 1, 1), Ok(None));
    assert!(model.get_cell_style(0, 1, 1).unwrap().font.u);
    model.undo().unwrap();
    assert_eq!(
        model.get_cell_link(0, 1, 1),
        Ok(Some(external("https://c.example/")))
    );
}

#[test]
fn a_link_can_bring_its_display_text() {
    let mut model = UserModel::new_empty();
    model
        .set_cell_link(0, 2, 2, external("https://d.example/"), Some("Docs"))
        .unwrap();
    assert_eq!(value(&model, 2, 2), "Docs");
    model.delete_cell_link(0, 2, 2).unwrap();
    assert_eq!(model.get_cell_link(0, 2, 2), Ok(None));
    assert_eq!(value(&model, 2, 2), "Docs");
    model.undo().unwrap();
    assert_eq!(
        model.get_cell_link(0, 2, 2),
        Ok(Some(external("https://d.example/")))
    );
}

#[test]
fn style_updates_cover_the_area_and_check_their_arguments() {
    let mut model = UserModel::new_empty();
    model.update_range_style(&area(2, 2, 2, 2), "font.i", "true").unwrap();
    assert!(model.get_cell_style(0, 3, 3).unwrap().font.i);
    assert!(!model.get_cell_style(0, 4, 3).unwrap().font.i);
    assert!(!model.get_cell_style(0, 2, 2).unwrap().font.b);
    model.update_range_style(&area(2, 2, 1, 1), "font.i", "false").unwrap();
    assert!(!model.get_cell_style(0, 2, 2).unwrap().font.i);
    assert_eq!(
        model.update_range_style(&area(1, 1, 1, 1), "font.size", "true"),
        Err("Invalid style path".to_string())
    );
    assert_eq!(
        model.update_range_style(&area(1, 1, 1, 1), "font.b", "yes"),
        Err("Invalid style value".to_string())
    );
    assert_eq!(
        model.update_range_style(&area(1, 1, 0, 1), "font.b", "true"),
        Err("Invalid area".to_string())
    );
    assert_eq!(
        model.range_clear_all(&Area {
            sheet: 2,
            row: 1,
            column: 1,
            width: 1,
            height: 1
        }),
        Err("Invalid sheet index".to_string())
    );
}

#[test]
fn clear_all_keeps_regions_only_partly_inside() {
    let mut model = UserModel::new_empty();
    model.merge_cells(0, 1, 1, 2, 2).unwrap();
    model.merge_cells(0, 4, 4, 3, 1).unwrap();
    model.set_user_input(0, 1, 1, "kept").unwrap();
    model.set_user_input(0, 4, 4, "gone").unwrap();
    model.update_range_style(&area(4, 4, 1, 1), "font.b", "true").unwrap();
    // Covers B2 of the first region only, and the second region whole.
    model.range_clear_all(&area(2, 2, 6, 4)).unwrap();
    assert_eq!(model.get_merge_cells(0).unwrap(), vec![region(1, 1, 2, 2)]);
    assert_eq!(value(&model, 1, 1), "kept");
    assert_eq!(value(&model, 4, 4), "");
    assert!(!model.get_cell_style(0, 4, 4).unwrap().font.b);
    model.undo().unwrap();
    assert_eq!(model.get_merge_cells(0).unwrap().len(), 2);
    assert!(model.get_cell_style(0, 4, 4).unwrap().font.b);
}

#[test]
fn clear_contents_keeps_styles() {
    let mut model = UserModel::new_empty();
    model.set_user_input(0, 1, 1, "x").unwrap();
    model.update_range_style(&area(1, 1, 1, 1), "font.strike", "true").unwrap();
    model.range_clear_contents(&area(1, 1, 1, 1)).unwrap();
    assert_eq!(value(&model, 1, 1), "");
    assert!(model.get_cell_style(0, 1, 1).unwrap().font.strike);
}

#[test]
fn deleting_rows_inside_a_region_shrinks_it() {
    let mut model = UserModel::new_empty();
    model.merge_cells(0, 2, 2, 2, 4).unwrap();
    model.set_user_input(0, 8, 1, "below").unwrap();
    model.delete_rows(0, 3, 2).unwrap();
    assert_eq!(model.get_merge_cells(0).unwrap(), vec![region(2, 2, 2, 2)]);
    assert_eq!(value(&model, 6, 1), "below");
    model.undo().unwrap();
    assert_eq!(model.get_merge_cells(0).unwrap(), vec![region(2, 2, 2, 4)]);
    assert_eq!(value(&model, 8, 1), "below");
}

#[test]
fn deleting_the_top_rows_of_a_region_moves_its_anchor_down() {
    let mut model = UserModel::new_empty();
    model.merge_cells(0, 3, 1, 3, 3).unwrap();
    model.delete_rows(0, 2, 2).unwrap();
    assert_eq!(model.get_merge_cells(0).unwrap(), vec![region(2, 1, 3, 2)]);
}

#[test]
fn a_region_reduced_to_one_cell_is_dropped() {
    let mut model = UserModel::new_empty();
    model.merge_cells(0, 2, 2, 1, 2).unwrap();
    model.merge_cells(0, 2, 5, 2, 1).unwrap();
    model.delete_rows(0, 3, 1).unwrap();
    assert_eq!(model.get_merge_cells(0).unwrap(), vec![region(2, 5, 2, 1)]);
    model.delete_columns(0, 6, 1).unwrap();
    assert!(model.get_merge_cells(0).unwrap().is_empty());
}

#[test]
fn deleting_columns_inside_a_region_shrinks_it() {
    let mut model = UserModel::new_empty();
    model.merge_cells(0, 1, 2, 4, 2).unwrap();
    model.delete_columns(0, 1, 2).unwrap();
    assert_eq!(model.get_merge_cells(0).unwrap(), vec![region(1, 1, 3, 2)]);
}

#[test]
fn delete_checks_its_range() {
    let mut model = UserModel::new_empty();
    assert_eq!(
        model.delete_rows(0, 0, 1),
        Err("Invalid row range".to_string())
    );
    assert_eq!(
        model.delete_rows(0, 1_048_576, 2),
        Err("Invalid row range".to_string())
    );
    assert_eq!(
        model.delete_columns(0, 2, 0),
        Err("Invalid column range".to_string())
    );
    assert_eq!(
        model.delete_columns(4, 1, 1),
        Err("Invalid sheet index".to_string())
    );
}

#[test]
fn a_move_that_would_split_a_region_is_refused() {
    let mut model = UserModel::new_empty();
    model.merge_cells(0, 2, 2, 2, 3).unwrap();
    // Moving row 3 alone takes part of the region.
    assert_eq!(
        model.move_rows_action(0, 3, 1, 5),
        Err("Cannot move rows because that would split a merged cell".to_string())
    );
    // Moving row 1 down by two passes over rows 2 and 3 but not row 4.
    assert_eq!(
        model.move_rows_action(0, 1, 1, 2),
        Err("Cannot move rows because that would split a merged cell".to_string())
    );
    assert_eq!(
        model.move_columns_action(0, 3, 1, -1),
        Err("Cannot move columns because that would split a merged cell".to_string())
    );
    assert_eq!(model.get_merge_cells(0).unwrap(), vec![region(2, 2, 2, 3)]);
    // Passing over the whole region shifts it.
    model.move_rows_action(0, 1, 1, 3).unwrap();
    assert_eq!(model.get_merge_cells(0).unwrap(), vec![region(1, 2, 2, 3)]);
}

#[test]
fn moving_columns_left_carries_the_region_and_its_content() {
    let mut model = UserModel::new_empty();
    model.set_user_input(0, 1, 5, "anchor").unwrap();
    model.set_user_input(0, 1, 2, "passed").unwrap();
    model.merge_cells(0, 1, 5, 2, 2).unwrap();
    model.move_columns_action(0, 5, 2, -3).unwrap();
    assert_eq!(model.get_merge_cells(0).unwrap(), vec![region(1, 2, 2, 2)]);
    assert_eq!(value(&model, 1, 2), "anchor");
    assert_eq!(value(&model, 1, 4), "passed");
    model.undo().unwrap();
    assert_eq!(model.get_merge_cells(0).unwrap(), vec![region(1, 5, 2, 2)]);
    assert_eq!(value(&model, 1, 5), "anchor");
}

#[test]
fn moves_stay_inside_the_sheet() {
    let mut model = UserModel::new_empty();
    assert_eq!(
        model.move_rows_action(0, 1, 1, -1),
        Err("Invalid row range".to_string())
    );
    assert_eq!(
        model.move_columns_action(0, 16_384, 1, 1),
        Err("Invalid column range".to_string())
    );
}

#[test]
fn a_range_formula_spills_over_its_range() {
    let mut model = UserModel::new_empty();
    model.set_user_input(0, 2, 2, "=D5:F6").unwrap();
    model.set_user_input(0, 8, 8, "=D6:D5").unwrap();
    model.set_user_input(0, 9, 9, "=B1").unwrap();
    let base = &model.model;
    assert_eq!(
        base.get_cell_structure(0, 2, 2),
        Ok(CellStructure::DynamicFormula {
            width: 3,
            height: 2
        })
    );
    assert_eq!(base.get_cell_structure(0, 8, 8), Ok(CellStructure::Single));
    assert_eq!(base.get_cell_structure(0, 9, 9), Ok(CellStructure::Single));
    assert_eq!(base.get_cell_structure(0, 1, 1), Ok(CellStructure::Single));
    // The spill of B2 reaches D3.
    assert!(model.merge_cells(0, 3, 4, 2, 2).is_err());
    assert!(model.merge_cells(0, 4, 2, 2, 2).is_ok());
}

#[test]
fn references_past_the_last_column_do_not_spill() {
    let mut model = UserModel::new_empty();
    model.set_user_input(0, 1, 1, "=XFD1:XFE2").unwrap();
    model.set_user_input(0, 1, 2, "=AA1:AB10").unwrap();
    let base = &model.model;
    assert_eq!(base.get_cell_structure(0, 1, 1), Ok(CellStructure::Single));
    assert_eq!(
        base.get_cell_structure(0, 1, 2),
        Ok(CellStructure::DynamicFormula {
            width: 2,
            height: 10
        })
    );
}

#[test]
fn moving_a_block_and_back_restores_everything() {
    let mut model = UserModel::new_empty();
    model.set_user_input(0, 2, 1, "two").unwrap();
    model.set_user_input(0, 5, 1, "five").unwrap();
    model.set_user_input(0, 7, 3, "seven").unwrap();
    model.merge_cells(0, 5, 2, 2, 2).unwrap();
    model.move_rows_action(0, 2, 2, 4).unwrap();
    assert_eq!(value(&model, 6, 1), "two");
    assert_eq!(value(&model, 3, 1), "five");
    assert_eq!(model.get_merge_cells(0).unwrap(), vec![region(3, 2, 2, 2)]);
    model.move_rows_action(0, 6, 2, -4).unwrap();
    assert_eq!(value(&model, 2, 1), "two");
    assert_eq!(value(&model, 5, 1), "five");
    assert_eq!(value(&model, 7, 3), "seven");
    assert_eq!(model.get_merge_cells(0).unwrap(), vec![region(5, 2, 2, 2)]);
}
