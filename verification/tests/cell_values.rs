use sheetpack::cell_value::CellValue;
use sheetpack::cell_value::Value;

#[test]
fn set_value() {
    let mut obj = CellValue::new();

    obj.set_value_from_string(&String::from("TEST"));
    assert_eq!(obj.get_value(), "TEST");

    obj.set_value_from_string("TEST");
    assert_eq!(obj.get_value(), "TEST");

    obj.set_value_from_bool(true);
    assert_eq!(obj.get_value(), "true");

    obj.set_value_from_bool_ref(&true);
    assert_eq!(obj.get_value(), "true");

    obj.set_value_from_numberic(&(1.0f64).to_string());
    assert_eq!(obj.get_value(), "1");

    obj.set_value_from_numberic(&(1.09f64).to_string());
    assert_eq!(obj.get_value(), "1.09");
}

#[test]
fn type_inference_null() {
    let mut c = CellValue::new();
    c.set_value("NULL");
    assert_eq!(c.get_data_type(), "null");
    let mut c2 = CellValue::new();
    c2.set_value("null");
    assert_eq!(c2.get_data_type(), "null");
}

#[test]
fn type_inference_numeric() {
    let mut c = CellValue::new();
    c.set_value("42");
    assert_eq!(c.get_data_type(), "n");
    assert_eq!(c.get_value(), "42");
    let mut c2 = CellValue::new();
    c2.set_value("-3.5");
    assert_eq!(c2.get_data_type(), "n");
    assert_eq!(c2.get_value(), "-3.5");
    let mut c3 = CellValue::new();
    c3.set_value("1e3");
    assert_eq!(c3.get_data_type(), "n");
}

#[test]
fn type_inference_bool() {
    let mut c = CellValue::new();
    c.set_value("true");
    assert_eq!(c.get_data_type(), "b");
    assert_eq!(c.get_value(), "true");
    let mut c2 = CellValue::new();
    c2.set_value("FALSE");
    assert_eq!(c2.get_data_type(), "b");
    assert_eq!(c2.get_value(), "false");
}

#[test]
fn type_inference_string() {
    let mut c = CellValue::new();
    c.set_value("hello");
    assert_eq!(c.get_data_type(), "s");
    assert_eq!(c.get_value(), "hello");
    let mut c2 = CellValue::new();
    c2.set_value("12abc");
    assert_eq!(c2.get_data_type(), "s");
}

#[test]
fn empty_cell_reports_empty() {
    let c = CellValue::new();
    assert!(c.is_empty());
    let mut c2 = CellValue::new();
    c2.set_formula("A1+A2");
    assert!(!c2.is_empty());
}

#[test]
fn raw_value_inference_is_cached() {
    let mut c = CellValue::new();
    c.set_value_raw("42");
    let tv = c.get_typed_value();
    assert!(matches!(tv, Some(Value::Numeric(ref s)) if s == "42"));
    // the cache, once populated, answers again identically
    let tv2 = c.get_typed_value();
    assert!(matches!(tv2, Some(Value::Numeric(ref s)) if s == "42"));
}

#[test]
fn data_type_for_value_codes() {
    assert_eq!(sheetpack::cell_value::data_type_for_value("NULL"), "null");
    assert_eq!(sheetpack::cell_value::data_type_for_value("3.14"), "n");
    assert_eq!(sheetpack::cell_value::data_type_for_value("True"), "b");
    assert_eq!(sheetpack::cell_value::data_type_for_value("words"), "s");
}

#[test]
fn check_data_type_accepts_and_rejects() {
    assert!(CellValue::check_data_type("anything", "s").is_ok());
    assert!(CellValue::check_data_type("anything", "str").is_ok());
    assert!(CellValue::check_data_type("anything", "f").is_ok());
    assert!(CellValue::check_data_type("anything", "null").is_ok());
    assert!(CellValue::check_data_type("1.5", "n").is_ok());
    assert_eq!(
        CellValue::check_data_type("abc", "n"),
        Err("Invalid numeric value for datatype Numeric")
    );
    assert!(CellValue::check_data_type("TRUE", "b").is_ok());
    assert_eq!(
        CellValue::check_data_type("yes", "b"),
        Err("Invalid value for datatype Bool")
    );
    assert_eq!(CellValue::check_data_type("x", "zzz"), Err("Invalid datatype"));
}

#[test]
fn formula_slots_are_exclusive() {
    let mut c = CellValue::new();
    c.set_value_from_string("abc");
    c.set_formula("SUM(A1:A2)");
    assert!(c.is_formula());
    assert_eq!(c.get_formula(), "SUM(A1:A2)");
    // setting a plain value clears the formula again
    c.set_value("xyz");
    assert!(!c.is_formula());
    assert_eq!(c.get_formula(), "");
}

#[test]
fn rich_text_concatenates() {
    let mut rt = sheetpack::rich_text::RichText::new();
    rt.add_run(sheetpack::rich_text::Text::new_with("Hello ".to_string()));
    rt.add_run(sheetpack::rich_text::Text::new_with("World".to_string()));
    let mut c = CellValue::new();
    c.set_rich_text(rt);
    assert_eq!(c.get_value(), "Hello World");
}

#[test]
fn formula_attributes_round_trip() {
    let mut c = CellValue::new();
    c.set_formula_attributes(vec![("ca".to_string(), "1".to_string())]);
    let attrs = c.get_formula_attributes();
    assert_eq!(attrs.len(), 1);
    assert_eq!(attrs[0], ("ca", "1"));
}

#[test]
fn drawing_leaf_values() {
    let mut st = sheetpack::drawing::Stretch::new();
    assert!(st.get_fill_rectangle().is_none());
    st.set_fill_rectangle(sheetpack::drawing::FillRectangle::new());
    assert!(st.get_fill_rectangle().is_some());

    let mut vis = sheetpack::drawing::Visible::new();
    assert!(vis.get_value().is_none());
    vis.set_value(true);
    assert_eq!(vis.get_value(), &Some(true));
}
