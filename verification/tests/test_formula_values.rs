use lib::{CellStructure, UserModel};

fn value(model: &UserModel, row: i32, column: i32) -> String {
    model.get_formatted_cell_value(0, row, column).unwrap()
}

fn shows(input: &str) -> String {
    let mut model = UserModel::new_empty();
    model.set_user_input(0, 1, 1, "7").unwrap();
    model.set_user_input(0, 1, 2, "-3").unwrap();
    model.set_user_input(0, 1, 3, "word").unwrap();
    model.set_user_input(0, 5, 5, input).unwrap();
    value(&model, 5, 5)
}

#[test]
fn merging_recomputes_the_dependents_of_covered_cells() {
    let mut model = UserModel::new_empty();
    model.set_user_input(0, 1, 2, "5").unwrap();
    model.set_user_input(0, 1, 3, "=B1+1").unwrap();
    assert_eq!(value(&model, 1, 3), "6");
    model.merge_cells(0, 1, 1, 2, 1).unwrap();
    assert_eq!(value(&model, 1, 2), "");
    assert_eq!(value(&model, 1, 3), "1");
    model.undo().unwrap();
    assert_eq!(value(&model, 1, 3), "6");
    model.redo().unwrap();
    assert_eq!(value(&model, 1, 3), "1");
    model.unmerge_cells(0, 1, 1).unwrap();
    assert_eq!(value(&model, 1, 3), "1");
}

#[test]
fn a_reference_to_an_empty_cell_reads_as_zero() {
    assert_eq!(shows("=Z9"), "0");
    assert_eq!(shows("=Z9+A1"), "7");
}

#[test]
fn operators_follow_precedence_and_associate_left() {
    assert_eq!(shows("=2+3*4"), "14");
    assert_eq!(shows("=(2+3)*4"), "20");
    assert_eq!(shows("=10-4-3"), "3");
    assert_eq!(shows("=2*-3"), "-6");
    assert_eq!(shows("=-A1*2"), "-14");
    assert_eq!(shows("=1--2"), "3");
    assert_eq!(shows("=A1*B1"), "-21");
}

#[test]
fn references_may_be_absolute_or_lower_case() {
    assert_eq!(shows("=$A$1+a1"), "14");
    assert_eq!(shows("=$a1*B$1"), "-21");
}

#[test]
fn text_values_pass_through_but_refuse_arithmetic() {
    assert_eq!(shows("=C1"), "word");
    assert_eq!(shows("=C1+1"), "#VALUE!");
    assert_eq!(shows("=1+C1*Z9"), "#VALUE!");
}

#[test]
fn malformed_formulas_are_errors() {
    assert_eq!(shows("=1+"), "#ERROR!");
    assert_eq!(shows("=(1"), "#ERROR!");
    assert_eq!(shows("="), "#ERROR!");
    assert_eq!(shows("=A0"), "#ERROR!");
    assert_eq!(shows("=SUM(A1)"), "#ERROR!");
}

#[test]
fn numbers_beyond_range_overflow() {
    assert_eq!(shows("=999999999999999"), "999999999999999");
    assert_eq!(shows("=999999999999999+1"), "#NUM!");
    assert_eq!(shows("=1000000000000000"), "#NUM!");
    assert_eq!(shows("=99999999*99999999"), "#NUM!");
}

#[test]
fn a_formula_that_reaches_itself_is_circular() {
    let mut model = UserModel::new_empty();
    model.set_user_input(0, 1, 1, "=B1+1").unwrap();
    model.set_user_input(0, 1, 2, "=A1").unwrap();
    assert_eq!(value(&model, 1, 1), "#CIRC!");
    assert_eq!(value(&model, 1, 2), "#CIRC!");
    model.set_user_input(0, 1, 2, "2").unwrap();
    assert_eq!(value(&model, 1, 1), "3");
}

#[test]
fn a_spilling_formula_shows_the_first_value_of_its_range() {
    let mut model = UserModel::new_empty();
    model.set_user_input(0, 1, 2, "10").unwrap();
    model.set_user_input(0, 2, 2, "20").unwrap();
    model.set_user_input(0, 1, 1, "=B1:B3").unwrap();
    assert_eq!(value(&model, 1, 1), "10");
}

#[test]
fn the_cells_a_formula_spills_over_show_the_rest_of_its_range() {
    let mut model = UserModel::new_empty();
    model.set_user_input(0, 1, 2, "10").unwrap();
    model.set_user_input(0, 2, 2, "20").unwrap();
    model.set_user_input(0, 3, 2, "30").unwrap();
    model.set_user_input(0, 1, 1, "=B1:B3").unwrap();
    assert_eq!(value(&model, 2, 1), "20");
    assert_eq!(value(&model, 3, 1), "30");
    assert_eq!(value(&model, 4, 1), "");
    assert_eq!(model.get_cell_content(0, 2, 1).unwrap(), "");
    model.set_user_input(0, 1, 3, "=A2*2").unwrap();
    assert_eq!(value(&model, 1, 3), "40");
    model.set_user_input(0, 3, 1, "mine").unwrap();
    assert_eq!(value(&model, 3, 1), "mine");
}

#[test]
fn a_cell_two_formulas_spill_over_is_a_spill_error() {
    let mut model = UserModel::new_empty();
    model.set_user_input(0, 1, 1, "=D1:E2").unwrap();
    model.set_user_input(0, 1, 2, "=D1:D3").unwrap();
    assert_eq!(value(&model, 2, 2), "#SPILL!");
    assert_eq!(value(&model, 2, 1), "0");
    assert_eq!(value(&model, 3, 2), "0");
}

#[test]
fn an_absolute_range_formula_blocks_a_merge_of_its_spill() {
    let mut model = UserModel::new_empty();
    model.set_user_input(0, 1, 1, "=$B$1:$B$3").unwrap();
    assert_eq!(
        model.model.get_cell_structure(0, 1, 1),
        Ok(CellStructure::DynamicFormula {
            width: 1,
            height: 3
        })
    );
    assert_eq!(
        model.merge_cells(0, 2, 1, 1, 2),
        Err("Cannot merge cells that contain an array formula".to_string())
    );
    model.set_user_input(0, 5, 5, "=c2:d4").unwrap();
    assert_eq!(
        model.model.get_cell_structure(0, 5, 5),
        Ok(CellStructure::DynamicFormula {
            width: 2,
            height: 3
        })
    );
}

fn external(target: &str) -> lib::Link {
    lib::Link::External {
        target: target.to_string(),
        tooltip: None,
    }
}

#[test]
fn typing_a_web_address_links_and_underlines_the_cell() {
    let mut model = UserModel::new_empty();
    model.set_user_input(0, 1, 1, "https://www.ironcalc.com/").unwrap();
    assert_eq!(
        model.get_cell_link(0, 1, 1),
        Ok(Some(external("https://www.ironcalc.com/")))
    );
    assert!(model.get_cell_style(0, 1, 1).unwrap().font.u);
    model.set_user_input(0, 1, 1, "https://docs.ironcalc.com/").unwrap();
    assert_eq!(
        model.get_cell_link(0, 1, 1),
        Ok(Some(external("https://docs.ironcalc.com/")))
    );
    model.undo().unwrap();
    assert_eq!(
        model.get_cell_link(0, 1, 1),
        Ok(Some(external("https://www.ironcalc.com/")))
    );
    model.undo().unwrap();
    assert_eq!(model.get_cell_link(0, 1, 1), Ok(None));
    assert!(!model.get_cell_style(0, 1, 1).unwrap().font.u);
    model.redo().unwrap();
    assert_eq!(
        model.get_cell_link(0, 1, 1),
        Ok(Some(external("https://www.ironcalc.com/")))
    );
    assert!(model.get_cell_style(0, 1, 1).unwrap().font.u);
}

#[test]
fn only_web_addresses_are_linked() {
    let mut model = UserModel::new_empty();
    model.set_user_input(0, 1, 1, "plain").unwrap();
    model.set_user_input(0, 2, 1, "https://a b").unwrap();
    model.set_user_input(0, 3, 1, "https://").unwrap();
    model.set_user_input(0, 4, 1, "http://x").unwrap();
    model.set_user_input(0, 5, 1, "ftp://x").unwrap();
    assert_eq!(model.get_cell_link(0, 1, 1), Ok(None));
    assert_eq!(model.get_cell_link(0, 2, 1), Ok(None));
    assert_eq!(model.get_cell_link(0, 3, 1), Ok(None));
    assert_eq!(model.get_cell_link(0, 4, 1), Ok(Some(external("http://x"))));
    assert_eq!(model.get_cell_link(0, 5, 1), Ok(None));
    assert!(!model.get_cell_style(0, 1, 1).unwrap().font.u);
}

#[test]
fn plain_text_over_a_link_keeps_the_link() {
    let mut model = UserModel::new_empty();
    model.set_user_input(0, 1, 1, "https://www.ironcalc.com/").unwrap();
    model.set_user_input(0, 1, 1, "renamed").unwrap();
    assert_eq!(
        model.get_cell_link(0, 1, 1),
        Ok(Some(external("https://www.ironcalc.com/")))
    );
    model.set_user_input(0, 1, 1, "").unwrap();
    assert_eq!(model.get_cell_link(0, 1, 1), Ok(None));
}

#[test]
fn a_long_chain_of_formulas_is_followed_to_its_end() {
    let mut model = UserModel::new_empty();
    model.set_user_input(0, 1, 1, "1").unwrap();
    for row in 2..=250 {
        let formula = format!("=A{}+1", row - 1);
        model.set_user_input(0, row, 1, &formula).unwrap();
    }
    assert_eq!(value(&model, 250, 1), "250");
}

#[test]
fn spaces_may_stand_around_operands() {
    assert_eq!(shows("= A1 + 1"), "8");
    assert_eq!(shows("=( 2 + 3 ) * 4"), "20");
    assert_eq!(shows("=1 * -2"), "-2");
    assert_eq!(shows("=1 - 2"), "-1");
    assert_eq!(shows("= -A1"), "-7");
    assert_eq!(shows("=A 1"), "#ERROR!");
    assert_eq!(shows("= "), "#ERROR!");
}
