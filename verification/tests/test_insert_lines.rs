use lib::{MergeCell, UserModel};

fn region(row: i32, column: i32, width: i32, height: i32) -> MergeCell {
    MergeCell {
        row,
        column,
        width,
        height,
    }
}

fn value(model: &UserModel, row: i32, column: i32) -> String {
    model.get_formatted_cell_value(0, row, column).unwrap()
}

#[test]
fn inserting_rows_shifts_or_grows_regions() {
    let mut model = UserModel::new_empty();
    model.set_user_input(0, 2, 2, "anchor").unwrap();
    model.merge_cells(0, 2, 2, 2, 3).unwrap();
    model.merge_cells(0, 10, 1, 2, 2).unwrap();
    model.set_user_input(0, 8, 1, "eight").unwrap();
    model.insert_rows(0, 3, 2).unwrap();
    assert_eq!(
        model.get_merge_cells(0).unwrap(),
        vec![region(2, 2, 2, 5), region(12, 1, 2, 2)]
    );
    assert_eq!(value(&model, 10, 1), "eight");
    assert_eq!(value(&model, 8, 1), "");
    assert_eq!(value(&model, 2, 2), "anchor");
    assert!(model.set_user_input(0, 5, 3, "inside").is_err());
    model.undo().unwrap();
    assert_eq!(
        model.get_merge_cells(0).unwrap(),
        vec![region(2, 2, 2, 3), region(10, 1, 2, 2)]
    );
    assert_eq!(value(&model, 8, 1), "eight");
    model.redo().unwrap();
    assert_eq!(
        model.get_merge_cells(0).unwrap(),
        vec![region(2, 2, 2, 5), region(12, 1, 2, 2)]
    );
    model.insert_rows(0, 2, 1).unwrap();
    assert_eq!(
        model.get_merge_cells(0).unwrap(),
        vec![region(3, 2, 2, 5), region(13, 1, 2, 2)]
    );
    assert_eq!(value(&model, 3, 2), "anchor");
}

#[test]
fn inserting_rows_below_a_region_leaves_it() {
    let mut model = UserModel::new_empty();
    model.merge_cells(0, 2, 2, 2, 3).unwrap();
    model.insert_rows(0, 5, 3).unwrap();
    assert_eq!(model.get_merge_cells(0).unwrap(), vec![region(2, 2, 2, 3)]);
}

#[test]
fn inserting_columns_shifts_or_grows_regions() {
    let mut model = UserModel::new_empty();
    model.set_user_input(0, 2, 2, "anchor").unwrap();
    model.merge_cells(0, 2, 2, 3, 2).unwrap();
    model.merge_cells(0, 5, 6, 2, 2).unwrap();
    model.insert_columns(0, 3, 1).unwrap();
    assert_eq!(
        model.get_merge_cells(0).unwrap(),
        vec![region(2, 2, 4, 2), region(5, 7, 2, 2)]
    );
    model.insert_columns(0, 1, 2).unwrap();
    assert_eq!(
        model.get_merge_cells(0).unwrap(),
        vec![region(2, 4, 4, 2), region(5, 9, 2, 2)]
    );
    assert_eq!(value(&model, 2, 4), "anchor");
    assert_eq!(value(&model, 2, 2), "");
}

#[test]
fn insert_checks_its_range_and_the_end_of_the_sheet() {
    let mut model = UserModel::new_empty();
    assert_eq!(
        model.insert_rows(1, 1, 1),
        Err("Invalid sheet index".to_string())
    );
    assert_eq!(
        model.insert_rows(0, 0, 1),
        Err("Invalid row range".to_string())
    );
    assert_eq!(
        model.insert_rows(0, 1, 0),
        Err("Invalid row range".to_string())
    );
    assert_eq!(
        model.insert_columns(0, 16385, 1),
        Err("Invalid column range".to_string())
    );
    model.set_user_input(0, 1048576, 1, "last").unwrap();
    assert_eq!(
        model.insert_rows(0, 5, 1),
        Err("Cannot shift cells because that would delete cells at the end of a column".to_string())
    );
    assert!(model.insert_rows(0, 1048576, 1).is_err());
    model.set_user_input(0, 1048576, 1, "").unwrap();
    assert!(model.insert_rows(0, 5, 1).is_ok());
    model.merge_cells(0, 1, 16383, 2, 2).unwrap();
    assert_eq!(
        model.insert_columns(0, 16384, 1),
        Err("Cannot shift cells because that would delete cells at the end of a row".to_string())
    );
    assert!(model.insert_rows(0, 3, 10).is_ok());
    assert_eq!(
        model.get_merge_cells(0).unwrap(),
        vec![region(1, 16383, 2, 2)]
    );
}

#[test]
fn deleting_the_inserted_rows_gives_everything_back() {
    let mut model = UserModel::new_empty();
    model.set_user_input(0, 2, 2, "anchor").unwrap();
    model.set_user_input(0, 7, 1, "seven").unwrap();
    model.merge_cells(0, 2, 2, 2, 3).unwrap();
    model.merge_cells(0, 9, 1, 3, 1).unwrap();
    model.insert_rows(0, 3, 4).unwrap();
    model.delete_rows(0, 3, 4).unwrap();
    assert_eq!(
        model.get_merge_cells(0).unwrap(),
        vec![region(2, 2, 2, 3), region(9, 1, 3, 1)]
    );
    assert_eq!(value(&model, 2, 2), "anchor");
    assert_eq!(value(&model, 7, 1), "seven");
    model.insert_columns(0, 2, 1).unwrap();
    model.delete_columns(0, 2, 1).unwrap();
    assert_eq!(
        model.get_merge_cells(0).unwrap(),
        vec![region(2, 2, 2, 3), region(9, 1, 3, 1)]
    );
    assert_eq!(value(&model, 2, 2), "anchor");
}
