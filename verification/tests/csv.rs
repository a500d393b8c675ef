use mr_xlsx::csv_escape;

#[test]
fn plain_fields_pass_through() {
    assert_eq!(csv_escape("hello"), "hello");
    assert_eq!(csv_escape(""), "");
    assert_eq!(csv_escape("with space"), "with space");
}

#[test]
fn special_fields_are_quoted() {
    assert_eq!(csv_escape("a,b"), "\"a,b\"");
    assert_eq!(csv_escape("line\nbreak"), "\"line\nbreak\"");
    assert_eq!(csv_escape("carriage\rreturn"), "\"carriage\rreturn\"");
}

#[test]
fn quotes_are_doubled() {
    assert_eq!(csv_escape("say \"hi\""), "\"say \"\"hi\"\"\"");
    assert_eq!(csv_escape("\""), "\"\"\"\"");
}
