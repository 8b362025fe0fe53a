use parseit::{format_field_value, format_value, parse_usize, render_parsed_decimal, FieldKind};

#[test]
fn implicit_decimal_splits_last_places() {
    assert_eq!(format_value("00012345", FieldKind::ImplicitAmount, false, 2), "123,45");
}

#[test]
fn implicit_decimal_pads_short_digits() {
    assert_eq!(format_value("5", FieldKind::ImplicitAmount, false, 2), "0,05");
}

#[test]
fn implicit_decimal_blank_is_zero() {
    assert_eq!(format_value("", FieldKind::ImplicitAmount, false, 2), "0,00");
    assert_eq!(format_value("   ", FieldKind::ImplicitAmount, false, 2), "0,00");
}

#[test]
fn blank_without_places_is_plain_zero() {
    assert_eq!(format_value("  ", FieldKind::Numeric, false, 0), "0");
    assert_eq!(format_value("", FieldKind::ExplicitAmount, true, 0), "0");
}

#[test]
fn explicit_decimal_groups_thousands() {
    assert_eq!(format_value("1234567,89", FieldKind::ExplicitAmount, true, 2), "1.234.567,89");
}

#[test]
fn explicit_decimal_keeps_negative_sign() {
    assert_eq!(format_value("-1234,5", FieldKind::ExplicitAmount, true, 2), "-1.234,50");
}

#[test]
fn explicit_decimal_drops_grouping_points() {
    assert_eq!(format_value("1.234.567,8", FieldKind::ExplicitAmount, false, 2), "1234567,80");
}

#[test]
fn explicit_decimal_without_fraction_gets_zero_places() {
    assert_eq!(format_value("42", FieldKind::ExplicitAmount, false, 3), "42,000");
}

#[test]
fn explicit_amount_defaults_to_two_places() {
    assert_eq!(format_value("1234", FieldKind::ExplicitAmount, false, 0), "1234,00");
}

#[test]
fn numeric_without_places_stays_whole() {
    assert_eq!(format_value("1234", FieldKind::Numeric, false, 0), "1234");
    assert_eq!(format_value("1234567", FieldKind::Numeric, true, 0), "1.234.567,00");
}

#[test]
fn fewer_places_round_half_away_from_zero() {
    assert_eq!(format_value("1,235", FieldKind::Numeric, false, 2), "1,24");
    assert_eq!(format_value("-1,235", FieldKind::Numeric, false, 2), "-1,24");
    assert_eq!(format_value("1,234", FieldKind::Numeric, false, 2), "1,23");
}

#[test]
fn small_groups_are_not_separated() {
    assert_eq!(format_value("999,5", FieldKind::ExplicitAmount, true, 2), "999,50");
    assert_eq!(format_value("1000", FieldKind::ExplicitAmount, true, 2), "1.000,00");
}

#[test]
fn malformed_number_is_returned_raw() {
    assert_eq!(format_value(" 12ab ", FieldKind::ExplicitAmount, false, 2), " 12ab ");
    assert_eq!(format_value("x1", FieldKind::ImplicitAmount, true, 2), "x1");
}

#[test]
fn text_kinds_come_back_trimmed() {
    assert_eq!(format_value("  hola ", FieldKind::Plain, true, 2), "hola");
}

#[test]
fn field_type_name_is_case_insensitive() {
    assert_eq!(format_field_value("00012345", "ZAMOUNT", false, 2), "123,45");
    assert_eq!(format_field_value("1234567,89", "Amount", true, 2), "1.234.567,89");
    assert_eq!(format_field_value(" abc ", "other", true, 2), "abc");
}

#[test]
fn kinds_are_named_exactly() {
    assert_eq!(FieldKind::from_name("table"), FieldKind::Table);
    assert_eq!(FieldKind::from_name("zamount"), FieldKind::ImplicitAmount);
    assert_eq!(FieldKind::from_name("amount"), FieldKind::ExplicitAmount);
    assert_eq!(FieldKind::from_name("numeric"), FieldKind::Numeric);
    assert_eq!(FieldKind::from_name("Amount"), FieldKind::Plain);
    assert_eq!(FieldKind::from_name("string"), FieldKind::Plain);
}

#[test]
fn unsigned_numbers_are_read() {
    assert_eq!(parse_usize("2"), Some(2));
    assert_eq!(parse_usize("+17"), Some(17));
    assert_eq!(parse_usize(""), None);
    assert_eq!(parse_usize("+"), None);
    assert_eq!(parse_usize("-1"), None);
    assert_eq!(parse_usize("1a"), None);
    assert_eq!(parse_usize("99999999999999999999999"), None);
}

#[test]
fn parsed_decimal_is_rendered_in_latin_form() {
    assert_eq!(render_parsed_decimal(-12345, 1, 2, true), "-1.234,50");
    assert_eq!(render_parsed_decimal(123456789, 2, 2, false), "1234567,89");
    assert_eq!(render_parsed_decimal(5, 0, 0, false), "5");
    assert_eq!(render_parsed_decimal(0, 0, 2, true), "0,00");
    assert_eq!(render_parsed_decimal(12345, 3, 1, false), "12,3");
    assert_eq!(render_parsed_decimal(12355, 3, 2, false), "12,36");
    assert_eq!(render_parsed_decimal(1, 0, 40, false), format!("1,{}", "0".repeat(28)));
}
