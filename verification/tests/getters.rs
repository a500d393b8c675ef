use mr_xlsx::{MrXlsxError, Workbook};

#[test]
fn get_sheet_finds_added_sheets() {
    let mut wb = Workbook::new();
    wb.add_sheet("First").unwrap();
    wb.add_sheet("Second").unwrap();
    let sheet = wb.get_sheet("First").expect("present");
    assert_eq!(sheet.get_name(), "First");
    assert!(wb.get_sheet("Third").is_none());
}

#[test]
fn error_detail_carries_identifier() {
    let mut wb = Workbook::new();
    wb.add_sheet("Data").unwrap();
    let err = wb.add_sheet("Data").unwrap_err();
    assert_eq!(err.detail(), "Data");
    assert!(matches!(err, MrXlsxError::AlreadyExists(_)));
}
