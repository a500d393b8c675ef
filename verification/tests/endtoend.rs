use mr_xlsx::{CellValue, Workbook, WorkbookBuilder, XlsxReader};

fn entry_text(bytes: &[u8], name: &str) -> String {
    let cursor = std::io::Cursor::new(bytes.to_vec());
    let mut archive = zip::ZipArchive::new(cursor).expect("archive opens");
    let mut file = archive.by_name(name).expect("entry exists");
    let mut out = String::new();
    std::io::Read::read_to_string(&mut file, &mut out).expect("entry reads");
    out
}

#[test]
fn explicit_order_reorders_output() {
    let mut wb = Workbook::new();
    wb.add_sheet("Summary").unwrap();
    wb.add_sheet("Data").unwrap();
    let header_s = vec![CellValue::text("summary header")];
    let header_d = vec![CellValue::text("data header")];
    wb.write_row("Summary", &header_s).unwrap();
    wb.write_row("Data", &header_d).unwrap();
    let order = vec!["Data".to_string()];
    let bytes = wb.finish_by_order(&order).unwrap();

    let workbook_part = entry_text(&bytes, "xl/workbook.xml");
    assert!(workbook_part.contains("<sheet name=\"Data\" sheetId=\"1\" r:id=\"rId1\"/>"));
    assert!(workbook_part.contains("<sheet name=\"Summary\" sheetId=\"2\" r:id=\"rId2\"/>"));
    let data_pos = workbook_part.find("name=\"Data\"").unwrap();
    let summary_pos = workbook_part.find("name=\"Summary\"").unwrap();
    assert!(data_pos < summary_pos);

    let reader = XlsxReader::from_bytes(bytes).unwrap();
    assert_eq!(
        reader.sheet_names().as_slice(),
        &["Data".to_string(), "Summary".to_string()],
    );
    let mut data_rows = reader.stream_rows("Data").unwrap();
    assert_eq!(
        data_rows.next_row().unwrap().unwrap().cells,
        vec!["data header".to_string()],
    );
    let mut summary_rows = reader.stream_rows("Summary").unwrap();
    assert_eq!(
        summary_rows.next_row().unwrap().unwrap().cells,
        vec!["summary header".to_string()],
    );
}

#[test]
fn missing_explicit_name_fails() {
    let mut wb = Workbook::new();
    wb.add_sheet("A").unwrap();
    let order = vec!["Ghost".to_string()];
    match wb.finish_by_order(&order) {
        Err(mr_xlsx::MrXlsxError::NotFound(name)) => assert_eq!(name, "Ghost"),
        _ => panic!("expected NotFound"),
    }
}

#[test]
fn builder_predeclares_sheets() {
    let wb = WorkbookBuilder::new()
        .set_sheets(vec!["One".to_string(), "Two".to_string()])
        .build()
        .unwrap();
    let bytes = wb.finish().unwrap();
    let reader = XlsxReader::from_bytes(bytes).unwrap();
    assert_eq!(
        reader.sheet_names().as_slice(),
        &["One".to_string(), "Two".to_string()],
    );
}

#[test]
fn builder_rejects_duplicate_names() {
    let result = WorkbookBuilder::new()
        .set_sheets(vec!["Same".to_string(), "Same".to_string()])
        .build();
    assert!(matches!(result, Err(mr_xlsx::MrXlsxError::AlreadyExists(_))));
}
