use mr_xlsx::{CellValue, MrXlsxError, Style, Workbook, XlsxReader};

fn entry_text(bytes: &[u8], name: &str) -> String {
    let cursor = std::io::Cursor::new(bytes.to_vec());
    let mut archive = zip::ZipArchive::new(cursor).expect("archive opens");
    let mut file = archive.by_name(name).expect("entry exists");
    let mut out = String::new();
    std::io::Read::read_to_string(&mut file, &mut out).expect("entry reads");
    out
}

#[test]
fn row_numbers_skip_empty_rows() {
    let mut wb = Workbook::new();
    wb.add_sheet("Data").unwrap();
    let r1 = vec![CellValue::text("a")];
    let r2: Vec<CellValue> = Vec::new();
    let r3 = vec![CellValue::text("b")];
    wb.write_row("Data", &r1).unwrap();
    wb.write_row("Data", &r2).unwrap();
    wb.write_row("Data", &r3).unwrap();
    let bytes = wb.finish().unwrap();
    let sheet = entry_text(&bytes, "xl/worksheets/sheet1.xml");
    assert!(sheet.contains("<row r=\"1\">"));
    assert!(!sheet.contains("<row r=\"2\">"));
    assert!(sheet.contains("<row r=\"3\">"));
}

#[test]
fn cell_encodings() {
    let mut wb = Workbook::new();
    wb.add_sheet("S").unwrap();
    let row = vec![
        CellValue::Blank,
        CellValue::num("42"),
        CellValue::text("a<b&c"),
        CellValue::bool(true),
        CellValue::bool(false),
        CellValue::formula("SUM(A1:A2)"),
    ];
    wb.write_row("S", &row).unwrap();
    let bytes = wb.finish().unwrap();
    let sheet = entry_text(&bytes, "xl/worksheets/sheet1.xml");
    assert!(sheet.contains("<c r=\"A1\"/>"));
    assert!(sheet.contains("<c r=\"B1\"><v>42</v></c>"));
    assert!(sheet.contains("<c r=\"C1\" t=\"inlineStr\"><is><t>a&lt;b&amp;c</t></is></c>"));
    assert!(sheet.contains("<c r=\"D1\" t=\"b\"><v>1</v></c>"));
    assert!(sheet.contains("<c r=\"E1\" t=\"b\"><v>0</v></c>"));
    assert!(sheet.contains("<c r=\"F1\"><f>SUM(A1:A2)</f><v/></c>"));
}

#[test]
fn styled_rows_attach_nonzero_indices_only() {
    let mut wb = Workbook::new();
    wb.add_sheet("S").unwrap();
    let row = vec![
        (CellValue::text("plain"), Style::new()),
        (CellValue::text("bold"), Style::new().bold()),
    ];
    wb.write_row_with_style("S", &row).unwrap();
    let bytes = wb.finish().unwrap();
    let sheet = entry_text(&bytes, "xl/worksheets/sheet1.xml");
    // The default style registers as index 0 and is omitted.
    assert!(sheet.contains("<c r=\"A1\" t=\"inlineStr\">"));
    assert!(sheet.contains("<c r=\"B1\" s=\"1\" t=\"inlineStr\">"));
    let styles = entry_text(&bytes, "xl/styles.xml");
    assert!(styles.contains("<fonts count=\"2\">"));
}

#[test]
fn duplicate_sheet_name_fails_and_keeps_content() {
    let mut wb = Workbook::new();
    wb.add_sheet("Data").unwrap();
    let row = vec![CellValue::text("kept")];
    wb.write_row("Data", &row).unwrap();
    match wb.add_sheet("Data") {
        Err(MrXlsxError::AlreadyExists(name)) => assert_eq!(name, "Data"),
        other => panic!("expected AlreadyExists, got {:?}", other.is_ok()),
    }
    let bytes = wb.finish().unwrap();
    let reader = XlsxReader::from_bytes(bytes).unwrap();
    assert_eq!(reader.sheet_names().as_slice(), &["Data".to_string()]);
    let mut rows = reader.stream_rows("Data").unwrap();
    let first = rows.next_row().unwrap().unwrap();
    assert_eq!(first.cells, vec!["kept".to_string()]);
    assert!(rows.next_row().is_none());
}

#[test]
fn missing_sheet_write_fails_with_not_found() {
    let mut wb = Workbook::new();
    wb.add_sheet("A").unwrap();
    let row = vec![CellValue::text("x")];
    match wb.write_row("B", &row) {
        Err(MrXlsxError::NotFound(name)) => assert_eq!(name, "B"),
        _ => panic!("expected NotFound"),
    }
}

#[test]
fn package_has_fixed_parts() {
    let mut wb = Workbook::new();
    wb.add_sheet("Only").unwrap();
    let bytes = wb.finish().unwrap();
    let ct = entry_text(&bytes, "[Content_Types].xml");
    assert!(ct.contains("<Override PartName=\"/xl/worksheets/sheet1.xml\""));
    let rels = entry_text(&bytes, "_rels/.rels");
    assert!(rels.contains("Target=\"xl/workbook.xml\""));
    let wb_part = entry_text(&bytes, "xl/workbook.xml");
    assert!(wb_part.contains("<sheet name=\"Only\" sheetId=\"1\" r:id=\"rId1\"/>"));
    let wb_rels = entry_text(&bytes, "xl/_rels/workbook.xml.rels");
    assert!(wb_rels.contains("Target=\"worksheets/sheet1.xml\""));
    assert!(wb_rels.contains("Target=\"styles.xml\""));
    let _ = entry_text(&bytes, "xl/styles.xml");
}
