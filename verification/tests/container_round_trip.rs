use sheetpack::cell_value::CellValue;
use sheetpack::spreadsheet::Spreadsheet;
use sheetpack::worksheet::Cell;
use sheetpack::worksheet::SheetBody;
use sheetpack::XlsxError;

fn cell(coord: &str, build: impl FnOnce(&mut CellValue)) -> Cell {
    let mut cv = CellValue::new();
    build(&mut cv);
    Cell { coordinate: coord.to_string(), cell_value: cv }
}

fn sample_book() -> Spreadsheet {
    let mut book = Spreadsheet::new();
    book.add_empty_sheet("Sheet1");
    book.push_cell(0, cell("A1", |c| c.set_value("hello"))).unwrap();
    book.push_cell(0, cell("A2", |c| c.set_value("42"))).unwrap();
    book.push_cell(0, cell("A3", |c| c.set_value("true"))).unwrap();
    book.push_cell(0, cell("A4", |c| c.set_value("hello"))).unwrap();
    book.push_cell(0, cell("B1", |c| c.set_formula("A2+1"))).unwrap();
    book.push_cell(0, cell("B2", |c| c.set_value("a<b&\"c\""))).unwrap();
    book
}

fn display_of(book: &Spreadsheet, sheet: usize, idx: usize) -> String {
    match &book.get_sheet(sheet).unwrap().body {
        Some(SheetBody::Ready(w)) => {
            let mut cv = w.cells[idx].cell_value.resolve_typed();
            match cv.take() {
                Some(v) => {
                    let mut c = CellValue::new();
                    match v {
                        sheetpack::cell_value::Value::String(s) => return s,
                        sheetpack::cell_value::Value::Numeric(s) => return s,
                        sheetpack::cell_value::Value::Bool(b) => return b.to_string(),
                        _ => {
                            let _ = c;
                            return String::new();
                        }
                    }
                }
                None => String::new(),
            }
        }
        _ => panic!("sheet not materialized"),
    }
}

#[test]
fn parts_round_trip_preserves_values() {
    // writing then reading reproduces cell values, shared strings and
    // sheet structure
    let mut book = sample_book();
    let parts = sheetpack::writer::write_parts(&mut book).unwrap();
    let book2 = sheetpack::reader::read_parts(&parts, true).unwrap();

    assert_eq!(book2.sheet_count(), 1);
    assert_eq!(book2.get_sheet(0).unwrap().get_name(), "Sheet1");
    assert_eq!(display_of(&book2, 0, 0), "hello");
    assert_eq!(display_of(&book2, 0, 1), "42");
    assert_eq!(display_of(&book2, 0, 2), "true");
    assert_eq!(display_of(&book2, 0, 3), "hello");
    assert_eq!(display_of(&book2, 0, 5), "a<b&\"c\"");
    // shared-string content arrived interned, deduplicated
    assert_eq!(book2.shared_string_table.get_shared_string_item().len(), 2);
    // the formula survived
    match &book2.get_sheet(0).unwrap().body {
        Some(SheetBody::Ready(w)) => {
            assert_eq!(w.cells[4].cell_value.get_formula(), "A2+1");
            assert_eq!(w.cells[4].coordinate, "B1");
        }
        _ => panic!("sheet not materialized"),
    }
}

#[test]
fn zip_round_trip_preserves_values() {
    let mut book = sample_book();
    let bytes = sheetpack::container::write(&mut book).unwrap();
    let book2 = sheetpack::container::read_reader(&bytes, true).unwrap();
    assert_eq!(book2.sheet_count(), 1);
    assert_eq!(display_of(&book2, 0, 0), "hello");
    assert_eq!(display_of(&book2, 0, 1), "42");
    assert_eq!(display_of(&book2, 0, 2), "true");
}

#[test]
fn lazy_read_defers_materialization() {
    let mut book = sample_book();
    let parts = sheetpack::writer::write_parts(&mut book).unwrap();
    let mut book2 = sheetpack::reader::read_parts(&parts, false).unwrap();
    assert!(!book2.get_sheet(0).unwrap().is_serialized());
    book2.read_sheet_collection().unwrap();
    assert!(book2.get_sheet(0).unwrap().is_serialized());
    assert_eq!(display_of(&book2, 0, 0), "hello");
}

#[test]
fn materialization_is_idempotent() {
    let mut book = sample_book();
    let parts = sheetpack::writer::write_parts(&mut book).unwrap();
    let book2 = sheetpack::reader::read_parts(&parts, false).unwrap();
    let mut sheet = match book2.sheets.into_iter().next() {
        Some(s) => s,
        None => panic!("no sheet"),
    };
    let theme = sheetpack::spreadsheet::Theme { raw: None };
    let styles = sheetpack::spreadsheet::Stylesheet { raw: None };
    let sst = book2.shared_string_table;
    sheetpack::reader::raw_to_serialize_by_worksheet(&mut sheet, &theme, &sst, &styles).unwrap();
    let first: Vec<String> = match &sheet.body {
        Some(SheetBody::Ready(w)) => w.cells.iter().map(|c| c.coordinate.clone()).collect(),
        _ => panic!("not materialized"),
    };
    // the second call is a no-op and reports no fault
    sheetpack::reader::raw_to_serialize_by_worksheet(&mut sheet, &theme, &sst, &styles).unwrap();
    let second: Vec<String> = match &sheet.body {
        Some(SheetBody::Ready(w)) => w.cells.iter().map(|c| c.coordinate.clone()).collect(),
        _ => panic!("not materialized"),
    };
    assert_eq!(first, second);
}

#[test]
fn missing_sheet_target_is_a_format_fault() {
    // a sheet whose relationship id resolves to no part in the container
    let parts: Vec<(String, String)> = vec![
        (
            "xl/workbook.xml".to_string(),
            "<workbook><sheets><sheet name=\"Sheet1\" r:id=\"rId1\"/></sheets></workbook>"
                .to_string(),
        ),
        (
            "xl/_rels/workbook.xml.rels".to_string(),
            "<Relationships><Relationship Id=\"rId1\" Type=\"http://schemas.openxmlformats.org/officeDocument/2006/relationships/worksheet\" Target=\"worksheets/sheet1.xml\"/></Relationships>"
                .to_string(),
        ),
    ];
    let r = sheetpack::reader::read_parts(&parts, true);
    assert_eq!(
        match r {
            Err(e) => e,
            Ok(_) => panic!("expected a format fault"),
        },
        XlsxError::Format
    );
}

#[test]
fn sheet_without_matching_relationship_has_no_body() {
    // an id matching no relationship is tolerated: the sheet simply has no
    // linked raw body, and materialization is a no-op on it
    let parts: Vec<(String, String)> = vec![
        (
            "xl/workbook.xml".to_string(),
            "<workbook><sheets><sheet name=\"Sheet1\" r:id=\"rId9\"/></sheets></workbook>"
                .to_string(),
        ),
        (
            "xl/_rels/workbook.xml.rels".to_string(),
            "<Relationships></Relationships>".to_string(),
        ),
    ];
    let book = sheetpack::reader::read_parts(&parts, true).unwrap();
    assert_eq!(book.sheet_count(), 1);
    assert!(book.get_sheet(0).unwrap().body.is_none());
}

#[test]
fn sheet_without_drawing_or_comments_materializes_empty() {
    let parts: Vec<(String, String)> = vec![
        (
            "xl/workbook.xml".to_string(),
            "<workbook><sheets><sheet name=\"Sheet1\" r:id=\"rId1\"/></sheets></workbook>"
                .to_string(),
        ),
        (
            "xl/_rels/workbook.xml.rels".to_string(),
            "<Relationships><Relationship Id=\"rId1\" Type=\"http://schemas.openxmlformats.org/officeDocument/2006/relationships/worksheet\" Target=\"worksheets/sheet1.xml\"/></Relationships>"
                .to_string(),
        ),
        (
            "xl/worksheets/sheet1.xml".to_string(),
            "<worksheet><sheetData><row><c r=\"A1\"><v>7</v></c></row></sheetData></worksheet>"
                .to_string(),
        ),
    ];
    let book = sheetpack::reader::read_parts(&parts, true).unwrap();
    match &book.get_sheet(0).unwrap().body {
        Some(SheetBody::Ready(w)) => {
            assert!(w.drawing_raw.is_none());
            assert!(w.comments_raw.is_none());
            assert_eq!(w.cells.len(), 1);
        }
        _ => panic!("sheet not materialized"),
    }
}

#[test]
fn empty_table_omits_shared_strings_part() {
    let mut book = Spreadsheet::new();
    book.add_empty_sheet("Sheet1");
    book.push_cell(0, cell("A1", |c| c.set_value("42"))).unwrap();
    let parts = sheetpack::writer::write_parts(&mut book).unwrap();
    assert!(parts.iter().all(|p| p.0 != "xl/sharedStrings.xml"));
    let mut book2 = Spreadsheet::new();
    book2.add_empty_sheet("Sheet1");
    book2.push_cell(0, cell("A1", |c| c.set_value("words"))).unwrap();
    let parts2 = sheetpack::writer::write_parts(&mut book2).unwrap();
    assert!(parts2.iter().any(|p| p.0 == "xl/sharedStrings.xml"));
}

#[test]
fn garbage_bytes_are_an_archive_fault() {
    let data: Vec<u8> = vec![1, 2, 3, 4, 5];
    let r = sheetpack::container::read_reader(&data, true);
    assert_eq!(
        match r {
            Err(e) => e,
            Ok(_) => panic!("expected an archive fault"),
        },
        XlsxError::Zip
    );
}

#[test]
fn truncated_rels_part_is_a_markup_fault() {
    let r = sheetpack::relationships::parse_relationships("<Relationships><Relationship ");
    assert!(matches!(r, Err(XlsxError::Xml)));
}

#[test]
fn workbook_wide_formula_rewrite_on_insert() {
    let mut book = Spreadsheet::new();
    book.add_empty_sheet("Sheet1");
    book.add_empty_sheet("Sheet2");
    book.push_cell(0, cell("C1", |c| c.set_formula("A5"))).unwrap();
    book.push_cell(1, cell("C1", |c| c.set_formula("Sheet1!A5"))).unwrap();
    book.push_cell(1, cell("C2", |c| c.set_formula("A5"))).unwrap();
    book.insert_new_row("Sheet1", &3, &2);
    let f = |si: usize, ci: usize| -> String {
        match &book.get_sheet(si).unwrap().body {
            Some(SheetBody::Ready(w)) => w.cells[ci].cell_value.get_formula().to_string(),
            _ => panic!("not materialized"),
        }
    };
    assert_eq!(f(0, 0), "A7");
    assert_eq!(f(1, 0), "Sheet1!A7");
    assert_eq!(f(1, 1), "A5");
}

#[test]
fn single_quoted_attributes_are_accepted() {
    let rels = sheetpack::relationships::parse_relationships(
        "<Relationships><Relationship Id='rId1' Type='t' Target='sheet1.xml'/></Relationships>",
    )
    .unwrap();
    assert_eq!(rels.len(), 1);
    assert_eq!(rels[0].get_id(), "rId1");
    assert_eq!(rels[0].get_target(), "sheet1.xml");
}

#[test]
fn comments_are_skipped() {
    // a comment section is skipped whole, even when it holds a `>`
    let mut table = sheetpack::shared_string_table::SharedStringTable::new();
    table
        .set_attributes("<sst><!-- a > b --><si><t>Hello</t></si><!----></sst>")
        .unwrap();
    let items = table.get_shared_string_item();
    assert_eq!(items.len(), 1);
    assert_eq!(items[0].get_text().as_ref().unwrap().value, "Hello");
}

#[test]
fn unterminated_comment_is_a_markup_fault() {
    let r = sheetpack::relationships::parse_relationships("<Relationships><!-- open ");
    assert!(matches!(r, Err(XlsxError::Xml)));
}
