use sheetpack::formula::adjustment_insert_formula_coordinate;
use sheetpack::formula::adjustment_remove_formula_coordinate;

#[test]
fn insert_rows_shifts_qualified_reference() {
    // inserting 2 rows at row 3 on Sheet1 moves Sheet1!A5 to Sheet1!A7
    let r = adjustment_insert_formula_coordinate("Sheet1!A5", &0, &0, &3, &2, "Sheet1", "Sheet1");
    assert_eq!(r, "Sheet1!A7");
}

#[test]
fn cross_sheet_qualification_is_respected() {
    // a formula on Sheet1 naming Sheet2 is untouched by an edit on Sheet1
    let r = adjustment_insert_formula_coordinate("Sheet2!A5", &0, &0, &3, &2, "Sheet1", "Sheet1");
    assert_eq!(r, "Sheet2!A5");
}

#[test]
fn unqualified_reference_follows_its_own_sheet() {
    let on_edited =
        adjustment_insert_formula_coordinate("A5+B1", &0, &0, &3, &2, "Sheet1", "Sheet1");
    assert_eq!(on_edited, "A7+B1");
    let on_other =
        adjustment_insert_formula_coordinate("A5+B1", &0, &0, &3, &2, "Sheet1", "Sheet2");
    assert_eq!(on_other, "A5+B1");
}

#[test]
fn remove_rows_invalidates_and_shifts() {
    // removing rows 3-4 on Sheet1: row 3 is invalidated, row 6 becomes row 4
    let gone = adjustment_remove_formula_coordinate("A3", &0, &0, &3, &2, "Sheet1", "Sheet1");
    assert_eq!(gone, "#REF!");
    let moved = adjustment_remove_formula_coordinate("A6", &0, &0, &3, &2, "Sheet1", "Sheet1");
    assert_eq!(moved, "A4");
}

#[test]
fn insert_columns_shifts_letters() {
    let r = adjustment_insert_formula_coordinate("B2+Z9", &2, &3, &0, &0, "Sheet1", "Sheet1");
    assert_eq!(r, "E2+AC9");
}

#[test]
fn anchored_references_keep_their_anchors() {
    let r = adjustment_insert_formula_coordinate("$A$5", &0, &0, &3, &2, "Sheet1", "Sheet1");
    assert_eq!(r, "$A$7");
}

#[test]
fn quoted_sheet_names_match_exactly() {
    let r = adjustment_insert_formula_coordinate("'My Sheet'!A5", &0, &0, &3, &2, "My Sheet", "Sheet1");
    assert_eq!(r, "'My Sheet'!A7");
    let other =
        adjustment_insert_formula_coordinate("'My Sheet'!A5", &0, &0, &3, &2, "Other", "Sheet1");
    assert_eq!(other, "'My Sheet'!A5");
}

#[test]
fn function_names_are_not_references() {
    let r = adjustment_insert_formula_coordinate("LOG10(A5)", &0, &0, &3, &2, "Sheet1", "Sheet1");
    assert_eq!(r, "LOG10(A7)");
}

#[test]
fn string_literals_are_untouched() {
    let r = adjustment_insert_formula_coordinate(
        "IF(A5>0,\"A5\",\"no\")",
        &0,
        &0,
        &3,
        &2,
        "Sheet1",
        "Sheet1",
    );
    assert_eq!(r, "IF(A7>0,\"A5\",\"no\")");
}

#[test]
fn reference_below_insert_point_stays() {
    let r = adjustment_insert_formula_coordinate("A2", &0, &0, &3, &2, "Sheet1", "Sheet1");
    assert_eq!(r, "A2");
}
