use sheetpack::cell_value::CellValue;
use sheetpack::shared_string_table::SharedStringTable;

#[test]
fn dedup_returns_stable_index() {
    // registering identical content N times: same index, one unique item,
    // the registration counter counts every call
    let mut table = SharedStringTable::new();
    let mut c = CellValue::new();
    c.set_value_from_string("hello");
    let i1 = table.set_cell(&c);
    let i2 = table.set_cell(&c);
    let i3 = table.set_cell(&c);
    assert_eq!(i1, 0);
    assert_eq!(i2, 0);
    assert_eq!(i3, 0);
    assert_eq!(table.get_shared_string_item().len(), 1);
    assert_eq!(table.get_regist_count(), 3);
}

#[test]
fn distinct_content_gets_fresh_indices() {
    let mut table = SharedStringTable::new();
    let mut a = CellValue::new();
    a.set_value_from_string("alpha");
    let mut b = CellValue::new();
    b.set_value_from_string("beta");
    assert_eq!(table.set_cell(&a), 0);
    assert_eq!(table.set_cell(&b), 1);
    assert_eq!(table.set_cell(&a), 0);
    assert_eq!(table.get_shared_string_item().len(), 2);
    assert_eq!(table.get_regist_count(), 3);
}

#[test]
fn lazy_lookup_build_covers_read_path() {
    // a table filled from the container (no registration) still dedups on
    // the first write-time registration
    let mut table = SharedStringTable::new();
    table
        .set_attributes("<sst><si><t>Hello</t></si><si><t>World</t></si></sst>")
        .unwrap();
    assert!(table.has_value());
    assert_eq!(table.get_shared_string_item().len(), 2);
    let mut c = CellValue::new();
    c.set_value_from_string("World");
    let idx = table.set_cell(&c);
    assert_eq!(idx, 1);
    assert_eq!(table.get_shared_string_item().len(), 2);
    assert_eq!(table.get_regist_count(), 1);
}

#[test]
fn sst_parse_reads_rich_runs() {
    let mut table = SharedStringTable::new();
    table
        .set_attributes("<sst><si><r><t>Bold </t></r><r><t>plain</t></r></si></sst>")
        .unwrap();
    let items = table.get_shared_string_item();
    assert_eq!(items.len(), 1);
    let rt = items[0].rich_text.as_ref().unwrap();
    assert_eq!(rt.get_text(), "Bold plain");
}

#[test]
fn sst_parse_decodes_entities() {
    let mut table = SharedStringTable::new();
    table
        .set_attributes("<sst><si><t>a&lt;b&amp;c</t></si></sst>")
        .unwrap();
    let items = table.get_shared_string_item();
    let t = items[0].text.as_ref().unwrap();
    assert_eq!(t.get_value(), "a<b&c");
}

#[test]
fn truncated_sst_is_a_markup_fault() {
    let mut table = SharedStringTable::new();
    let r = table.set_attributes("<sst><si><t>Hello</t></si>");
    assert_eq!(r, Err(sheetpack::XlsxError::Xml));
}

#[test]
fn sst_serialization_declares_counts() {
    let mut table = SharedStringTable::new();
    let mut c = CellValue::new();
    c.set_value_from_string("x");
    table.set_cell(&c);
    table.set_cell(&c);
    let mut out: Vec<char> = Vec::new();
    table.write_to(&mut out);
    let text: String = out.into_iter().collect();
    assert_eq!(
        text,
        "<sst xmlns=\"http://schemas.openxmlformats.org/spreadsheetml/2006/main\" count=\"2\" uniqueCount=\"1\"><si><t>x</t></si></sst>"
    );
}

#[test]
fn empty_text_item_survives_reread() {
    // an interned item whose plain text is empty writes <t></t> and reads
    // back with the (empty) text slot still present
    let mut table = SharedStringTable::new();
    let mut item = sheetpack::shared_string_table::SharedStringItem::new();
    item.set_text(sheetpack::rich_text::Text { value: String::new() });
    table.set_shared_string_item(item);
    let mut out: Vec<char> = Vec::new();
    table.write_to(&mut out);
    let markup: String = out.iter().collect();
    let mut reread = SharedStringTable::new();
    reread.set_attributes(&markup).unwrap();
    let items = reread.get_shared_string_item();
    assert_eq!(items.len(), 1);
    match items[0].get_text() {
        Some(t) => assert_eq!(t.value, ""),
        None => panic!("empty text slot was dropped"),
    }
}
