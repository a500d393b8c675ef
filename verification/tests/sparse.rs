use mr_xlsx::XlsxReader;

fn build_package(sheet_xml: &str, shared: Option<&str>) -> Vec<u8> {
    let cursor = std::io::Cursor::new(Vec::new());
    let mut archive = zip::ZipWriter::new(cursor);
    let opts = zip::write::SimpleFileOptions::default();
    let workbook = "<?xml version=\"1.0\"?><workbook xmlns:r=\"http://schemas.openxmlformats.org/officeDocument/2006/relationships\"><sheets><sheet name=\"S\" sheetId=\"1\" r:id=\"rId1\"/></sheets></workbook>";
    let rels = "<?xml version=\"1.0\"?><Relationships><Relationship Id=\"rId1\" Type=\"http://schemas.openxmlformats.org/officeDocument/2006/relationships/worksheet\" Target=\"worksheets/sheet1.xml\"/></Relationships>";
    archive.start_file("xl/workbook.xml", opts).unwrap();
    std::io::Write::write_all(&mut archive, workbook.as_bytes()).unwrap();
    archive.start_file("xl/_rels/workbook.xml.rels", opts).unwrap();
    std::io::Write::write_all(&mut archive, rels.as_bytes()).unwrap();
    archive.start_file("xl/worksheets/sheet1.xml", opts).unwrap();
    std::io::Write::write_all(&mut archive, sheet_xml.as_bytes()).unwrap();
    if let Some(sst) = shared {
        archive.start_file("xl/sharedStrings.xml", opts).unwrap();
        std::io::Write::write_all(&mut archive, sst.as_bytes()).unwrap();
    }
    archive.finish().unwrap().into_inner()
}

#[test]
fn sparse_row_pads_skipped_columns() {
    let sheet = "<worksheet><sheetData><row r=\"1\"><c r=\"C1\" t=\"str\"><v>first</v></c></row></sheetData></worksheet>";
    let bytes = build_package(sheet, None);
    let reader = XlsxReader::from_bytes(bytes).unwrap();
    let mut rows = reader.stream_rows("S").unwrap();
    let row = rows.next_row().unwrap().unwrap();
    assert!(row.cells.len() >= 3);
    assert_eq!(row.cells[0], "");
    assert_eq!(row.cells[1], "");
    assert_eq!(row.cells[2], "first");
}

#[test]
fn shared_string_in_range_resolves() {
    let sheet = "<worksheet><sheetData><row r=\"1\"><c r=\"A1\" t=\"s\"><v>0</v></c><c r=\"B1\" t=\"s\"><v>1</v></c></row></sheetData></worksheet>";
    let sst = "<sst><si><t>hello</t></si><si><t>world</t></si></sst>";
    let bytes = build_package(sheet, Some(sst));
    let reader = XlsxReader::from_bytes(bytes).unwrap();
    let mut rows = reader.stream_rows("S").unwrap();
    let row = rows.next_row().unwrap().unwrap();
    assert_eq!(row.cells, vec!["hello".to_string(), "world".to_string()]);
}

#[test]
fn shared_string_out_of_range_resolves_to_empty() {
    let sheet = "<worksheet><sheetData><row r=\"1\"><c r=\"A1\" t=\"s\"><v>99</v></c><c r=\"B1\" t=\"s\"><v>junk</v></c><c r=\"C1\" t=\"s\"><v>0</v></c></row></sheetData></worksheet>";
    let sst = "<sst><si><t>only</t></si></sst>";
    let bytes = build_package(sheet, Some(sst));
    let reader = XlsxReader::from_bytes(bytes).unwrap();
    let mut rows = reader.stream_rows("S").unwrap();
    let row = rows.next_row().unwrap().unwrap();
    // An out-of-range index and unparseable text both resolve to the
    // empty string, not a failure; a parseable in-range index resolves.
    assert_eq!(row.cells[0], "");
    assert_eq!(row.cells[1], "");
    assert_eq!(row.cells[2], "only");
}

#[test]
fn absent_shared_table_means_empty_list() {
    let sheet = "<worksheet><sheetData><row r=\"1\"><c r=\"A1\" t=\"s\"><v>0</v></c></row></sheetData></worksheet>";
    let bytes = build_package(sheet, None);
    let reader = XlsxReader::from_bytes(bytes).unwrap();
    let mut rows = reader.stream_rows("S").unwrap();
    let row = rows.next_row().unwrap().unwrap();
    assert_eq!(row.cells, vec!["".to_string()]);
}

#[test]
fn boolean_cells_map_to_words() {
    let sheet = "<worksheet><sheetData><row r=\"1\"><c r=\"A1\" t=\"b\"><v>1</v></c><c r=\"B1\" t=\"b\"><v>0</v></c></row></sheetData></worksheet>";
    let bytes = build_package(sheet, None);
    let reader = XlsxReader::from_bytes(bytes).unwrap();
    let mut rows = reader.stream_rows("S").unwrap();
    let row = rows.next_row().unwrap().unwrap();
    assert_eq!(row.cells, vec!["TRUE".to_string(), "FALSE".to_string()]);
}

#[test]
fn empty_row_elements_yield_nothing() {
    let sheet = "<worksheet><sheetData><row r=\"1\"></row><row r=\"2\"><c r=\"A2\" t=\"str\"><v>x</v></c></row></sheetData></worksheet>";
    let bytes = build_package(sheet, None);
    let reader = XlsxReader::from_bytes(bytes).unwrap();
    let mut rows = reader.stream_rows("S").unwrap();
    let row = rows.next_row().unwrap().unwrap();
    assert_eq!(row.cells, vec!["x".to_string()]);
    assert!(rows.next_row().is_none());
}

#[test]
fn inline_strings_read_back() {
    let sheet = "<worksheet><sheetData><row r=\"1\"><c r=\"A1\" t=\"inlineStr\"><is><t>in line</t></is></c></row></sheetData></worksheet>";
    let bytes = build_package(sheet, None);
    let reader = XlsxReader::from_bytes(bytes).unwrap();
    let mut rows = reader.stream_rows("S").unwrap();
    let row = rows.next_row().unwrap().unwrap();
    assert_eq!(row.cells, vec!["in line".to_string()]);
}

#[test]
fn malformed_archive_fails_to_open() {
    let junk = vec![1u8, 2, 3, 4, 5];
    assert!(XlsxReader::from_bytes(junk).is_err());
}

#[test]
fn entity_references_resolve_in_cell_text() {
    let sheet = "<worksheet><sheetData><row r=\"1\"><c r=\"A1\" t=\"str\"><v>A&amp;B&#33;&#x21;</v></c></row></sheetData></worksheet>";
    let bytes = build_package(sheet, None);
    let reader = XlsxReader::from_bytes(bytes).unwrap();
    let mut rows = reader.stream_rows("S").unwrap();
    let row = rows.next_row().unwrap().unwrap();
    assert_eq!(row.cells, vec!["A&B!!".to_string()]);
}
