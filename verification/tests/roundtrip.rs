use mr_xlsx::{CellValue, Workbook, XlsxReader};

#[test]
fn write_then_read_back() {
    let mut wb = Workbook::new();
    wb.add_sheet("Sheet1").unwrap();
    let row = vec![CellValue::text("Name"), CellValue::num("42"), CellValue::bool(true)];
    wb.write_row("Sheet1", &row).unwrap();
    let bytes = wb.finish().unwrap();

    let reader = XlsxReader::from_bytes(bytes).unwrap();
    let mut rows = reader.stream_rows("Sheet1").unwrap();
    let first = rows.next_row().unwrap().unwrap();
    assert_eq!(
        first.cells,
        vec!["Name".to_string(), "42".to_string(), "TRUE".to_string()],
    );
    assert!(rows.next_row().is_none());
}

#[test]
fn escaped_text_round_trips() {
    let mut wb = Workbook::new();
    wb.add_sheet("S").unwrap();
    let row = vec![CellValue::text("a<b&c>\"d'e")];
    wb.write_row("S", &row).unwrap();
    let bytes = wb.finish().unwrap();

    let reader = XlsxReader::from_bytes(bytes).unwrap();
    let mut rows = reader.stream_rows("S").unwrap();
    let first = rows.next_row().unwrap().unwrap();
    assert_eq!(first.cells, vec!["a<b&c>\"d'e".to_string()]);
}

#[test]
fn multiple_rows_in_order() {
    let mut wb = Workbook::new();
    wb.add_sheet("S").unwrap();
    for i in 0..5 {
        let row = vec![CellValue::num(&i.to_string())];
        wb.write_row("S", &row).unwrap();
    }
    let bytes = wb.finish().unwrap();
    let reader = XlsxReader::from_bytes(bytes).unwrap();
    let mut rows = reader.stream_rows("S").unwrap();
    for i in 0..5 {
        let row = rows.next_row().unwrap().unwrap();
        assert_eq!(row.cells, vec![i.to_string()]);
    }
    assert!(rows.next_row().is_none());
}

#[test]
fn unknown_sheet_stream_fails() {
    let mut wb = Workbook::new();
    wb.add_sheet("S").unwrap();
    let bytes = wb.finish().unwrap();
    let reader = XlsxReader::from_bytes(bytes).unwrap();
    assert!(reader.stream_rows("Nope").is_err());
}

#[test]
fn sheet_to_csv_formats_rows() {
    let mut wb = Workbook::new();
    wb.add_sheet("S").unwrap();
    let r1 = vec![CellValue::text("Name"), CellValue::num("42"), CellValue::bool(true)];
    let r2 = vec![CellValue::text("a,b"), CellValue::text("q\"t")];
    wb.write_row("S", &r1).unwrap();
    wb.write_row("S", &r2).unwrap();
    let bytes = wb.finish().unwrap();
    let reader = XlsxReader::from_bytes(bytes).unwrap();
    let (csv, count) = reader.sheet_to_csv("S").unwrap();
    assert_eq!(count, 2);
    assert_eq!(csv, "Name,42,TRUE\n\"a,b\",\"q\"\"t\"\n");
}
