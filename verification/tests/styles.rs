use mr_xlsx::{BorderStyle, Color, NumberFormat, Style, StyleRegistry};

#[test]
fn register_same_content_twice_gives_same_index() {
    let mut reg = StyleRegistry::new();
    let a = Style::new().bold().bg("FF0000");
    let b = Style::new().bold().bg("FF0000");
    let i1 = reg.register(&a);
    let i2 = reg.register(&b);
    assert_eq!(i1, i2);
}

#[test]
fn register_distinct_content_gives_distinct_indices() {
    let mut reg = StyleRegistry::new();
    let a = Style::new().bold();
    let b = Style::new().italic();
    let i1 = reg.register(&a);
    let i2 = reg.register(&b);
    assert_ne!(i1, i2);
}

#[test]
fn register_default_style_gives_index_zero() {
    let mut reg = StyleRegistry::new();
    let i0 = reg.register(&Style::new());
    assert_eq!(i0, 0);
    // Still zero after other registrations.
    let _ = reg.register(&Style::new().underline());
    assert_eq!(reg.register(&Style::new()), 0);
}

#[test]
fn distinct_custom_formats_get_distinct_indices() {
    let mut reg = StyleRegistry::new();
    let a = Style::new().custom_format("0.000");
    let b = Style::new().custom_format("0.0000");
    let c = Style::new().custom_format("0.000");
    let i1 = reg.register(&a);
    let i2 = reg.register(&b);
    let i3 = reg.register(&c);
    assert_ne!(i1, i2);
    assert_eq!(i1, i3);
}

#[test]
fn builtin_format_ids() {
    assert_eq!(NumberFormat::General.builtin_id(), Some(0));
    assert_eq!(NumberFormat::Integer.builtin_id(), Some(1));
    assert_eq!(NumberFormat::Decimal2.builtin_id(), Some(4));
    assert_eq!(NumberFormat::Percent.builtin_id(), Some(10));
    assert_eq!(NumberFormat::Currency.builtin_id(), Some(7));
    assert_eq!(NumberFormat::Date.builtin_id(), Some(14));
    assert_eq!(NumberFormat::DateTime.builtin_id(), Some(22));
    assert_eq!(NumberFormat::Custom("0.0".to_string()).builtin_id(), None);
}

#[test]
fn color_normalization() {
    assert_eq!(Color::new("#ff0000").as_argb(), "FFFF0000");
    assert_eq!(Color::new("00ff00").as_argb(), "FF00FF00");
    assert_eq!(Color::new("80a0b0c0").as_argb(), "80A0B0C0");
}

#[test]
fn custom_format_ids_start_at_164() {
    let mut reg = StyleRegistry::new();
    let _ = reg.register(&Style::new().custom_format("yyyy-mm-dd"));
    let xml = reg.to_xml();
    assert!(xml.contains("<numFmt numFmtId=\"164\" formatCode=\"yyyy-mm-dd\"/>"));
}

#[test]
fn style_xml_tables() {
    let mut reg = StyleRegistry::new();
    let _ = reg.register(&Style::new().bold().font_size(14).bg("112233").border_all(
        BorderStyle::Thin,
    ));
    let xml = reg.to_xml();
    // The reserved second fill slot carries the fixed system pattern.
    assert!(xml.contains("<fill><patternFill patternType=\"gray125\"/></fill>"));
    assert!(xml.contains("<fills count=\"3\">"));
    assert!(xml.contains("<b/>"));
    assert!(xml.contains("<sz val=\"14\"/>"));
    assert!(xml.contains("<fgColor rgb=\"FF112233\"/>"));
    assert!(xml.contains("<left style=\"thin\">"));
    assert!(xml.contains("<cellXfs count=\"2\">"));
    assert!(xml.contains("<cellStyle name=\"Normal\" xfId=\"0\" builtinId=\"0\"/>"));
}

#[test]
fn border_attr_values() {
    assert_eq!(BorderStyle::NoLine.as_xml_attr(), None);
    assert_eq!(BorderStyle::Thin.as_xml_attr(), Some("thin"));
    assert_eq!(BorderStyle::Double.as_xml_attr(), Some("double"));
}
