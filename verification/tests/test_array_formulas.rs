use lib::{Area, CellStructure, UserModel};

fn area(row: i32, column: i32, width: i32, height: i32) -> Area {
    Area {
        sheet: 0,
        row,
        column,
        width,
        height,
    }
}

fn value(model: &UserModel, row: i32, column: i32) -> String {
    model.get_formatted_cell_value(0, row, column).unwrap()
}

#[test]
fn an_array_formula_blocks_merges_and_typed_input() {
    let mut model = UserModel::new_empty();
    model.set_user_input(0, 1, 3, "1").unwrap();
    model.set_user_input(0, 2, 3, "2").unwrap();
    model
        .set_user_array_formula(&area(1, 2, 1, 2), "=C1:C2")
        .unwrap();
    assert_eq!(
        model.model.get_cell_structure(0, 1, 2),
        Ok(CellStructure::ArrayFormula {
            width: 1,
            height: 2
        })
    );
    assert_eq!(model.get_cell_content(0, 1, 2).unwrap(), "=C1:C2");
    assert_eq!(value(&model, 1, 2), "1");
    assert_eq!(value(&model, 2, 2), "2");
    assert_eq!(
        model.set_user_input(0, 1, 2, "boom"),
        Err("Cannot change part of an array formula".to_string())
    );
    assert_eq!(
        model.set_user_input(0, 2, 2, "boom"),
        Err("Cannot change part of an array formula".to_string())
    );
    assert!(model.set_user_input(0, 3, 2, "below").is_ok());
    assert_eq!(
        model.merge_cells(0, 2, 1, 2, 2),
        Err("Cannot merge cells that contain an array formula".to_string())
    );
    model.undo().unwrap();
    model.undo().unwrap();
    assert_eq!(model.get_cell_content(0, 1, 2).unwrap(), "");
    assert!(model.set_user_input(0, 1, 2, "free").is_ok());
    assert!(model.merge_cells(0, 2, 1, 2, 2).is_ok());
}

#[test]
fn an_array_formula_takes_over_its_area() {
    let mut model = UserModel::new_empty();
    model.set_user_input(0, 2, 2, "old").unwrap();
    model.set_user_input(0, 1, 1, "7").unwrap();
    model
        .set_user_array_formula(&area(1, 2, 2, 2), "=A1*3")
        .unwrap();
    assert_eq!(model.get_cell_content(0, 2, 2).unwrap(), "");
    assert_eq!(value(&model, 1, 2), "21");
    assert_eq!(value(&model, 2, 3), "21");
    model.undo().unwrap();
    assert_eq!(model.get_cell_content(0, 2, 2).unwrap(), "old");
    model
        .set_user_array_formula(&area(5, 5, 1, 1), "=1+1")
        .unwrap();
    assert_eq!(value(&model, 5, 5), "2");
}

#[test]
fn an_array_formula_checks_its_arguments() {
    let mut model = UserModel::new_empty();
    model.merge_cells(0, 4, 4, 2, 2).unwrap();
    let mut elsewhere = area(1, 1, 1, 1);
    elsewhere.sheet = 1;
    assert_eq!(
        model.set_user_array_formula(&elsewhere, "=1"),
        Err("Invalid sheet index".to_string())
    );
    assert_eq!(
        model.set_user_array_formula(&area(1, 1, 0, 1), "=1"),
        Err("Invalid area".to_string())
    );
    assert_eq!(
        model.set_user_array_formula(&area(1, 1, 1, 1), "1"),
        Err("An array formula must start with =".to_string())
    );
    assert_eq!(
        model.set_user_array_formula(&area(3, 3, 2, 2), "=1"),
        Err("Cannot enter an array formula over merged cells".to_string())
    );
    assert_eq!(model.get_cell_content(0, 3, 3).unwrap(), "");
    assert_eq!(model.get_merge_cells(0).unwrap().len(), 1);
}

#[test]
fn structural_edits_keep_array_formulas_whole() {
    let mut model = UserModel::new_empty();
    model.set_user_input(0, 1, 3, "1").unwrap();
    model.set_user_input(0, 2, 3, "2").unwrap();
    model
        .set_user_array_formula(&area(1, 2, 1, 2), "=C1:C2")
        .unwrap();
    let refusal = Err("Cannot change part of an array formula".to_string());
    assert_eq!(model.delete_rows(0, 2, 1), refusal);
    assert_eq!(model.insert_rows(0, 2, 1), refusal);
    assert_eq!(model.move_rows_action(0, 2, 1, 3), refusal);
    assert!(model.insert_rows(0, 1, 1).is_ok());
    assert_eq!(model.get_cell_content(0, 2, 2).unwrap(), "=C1:C2");
    assert!(model.move_rows_action(0, 2, 2, 3).is_ok());
    assert_eq!(model.get_cell_content(0, 5, 2).unwrap(), "=C1:C2");
    assert!(model.insert_columns(0, 2, 1).is_ok());
    assert_eq!(model.get_cell_content(0, 5, 3).unwrap(), "=C1:C2");
    assert!(model.delete_rows(0, 5, 2).is_ok());
    assert_eq!(model.get_cell_content(0, 5, 3).unwrap(), "");
}
