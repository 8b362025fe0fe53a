use parseit::{
    calculate_format_length, deduce_format, find_format, get_first_line_length, ConfigSchema,
    FieldDefinition, FormatDefinition, FormatError,
};

fn field(name: &str, len: usize) -> FieldDefinition {
    FieldDefinition {
        nombre: name.to_string(),
        len,
        tipo: "string".to_string(),
        param1: String::new(),
        param2: String::new(),
    }
}

fn format(widths: &[usize]) -> FormatDefinition {
    FormatDefinition {
        category: "test".to_string(),
        delimiter: String::new(),
        fields: widths.iter().enumerate().map(|(i, w)| field(&format!("f{}", i), *w)).collect(),
    }
}

#[test]
fn format_length_sums_widths() {
    assert_eq!(calculate_format_length(&format(&[3, 4, 5]).fields), 12);
    assert_eq!(calculate_format_length(&[]), 0);
}

#[test]
fn format_length_ignores_field_order() {
    let a = format(&[1, 20, 300]).fields;
    let b = vec![a[2].clone(), a[0].clone(), a[1].clone()];
    assert_eq!(calculate_format_length(&a), calculate_format_length(&b));
}

#[test]
fn first_line_length_drops_terminator() {
    assert_eq!(get_first_line_length(b"abcde\nxy"), 5);
    assert_eq!(get_first_line_length(b"abcde\r\nxy"), 5);
    assert_eq!(get_first_line_length(b"abc"), 3);
    assert_eq!(get_first_line_length(b""), 0);
    assert_eq!(get_first_line_length(&[0xD1, 0xE9, b'\n']), 2);
}

#[test]
fn deduce_picks_the_only_matching_format() {
    let formats = vec![("short".to_string(), format(&[2, 3])), ("long".to_string(), format(&[4, 4]))];
    assert_eq!(deduce_format(b"abcdefgh\n12345678\n", &formats).unwrap(), "long");
    assert_eq!(deduce_format(b"abcde\r\n", &formats).unwrap(), "short");
}

#[test]
fn deduce_rejects_two_formats_of_the_same_length() {
    let formats = vec![
        ("first".to_string(), format(&[2, 3])),
        ("second".to_string(), format(&[5])),
        ("other".to_string(), format(&[1])),
    ];
    for _ in 0..3 {
        assert!(matches!(deduce_format(b"abcde\n", &formats), Err(FormatError::AmbiguousLength(5))));
    }
}

#[test]
fn deduce_reports_unmatched_length() {
    let formats = vec![("short".to_string(), format(&[2, 3]))];
    assert!(matches!(deduce_format(b"abcdefg\n", &formats), Err(FormatError::UnmatchedLength(7))));
}

#[test]
fn find_format_by_name() {
    let schema = ConfigSchema {
        formats: vec![("a".to_string(), format(&[1])), ("b".to_string(), format(&[2, 2]))],
        tables: Vec::new(),
        shortcuts: Vec::new(),
    };
    let found = find_format(&schema, &"b".to_string()).unwrap();
    assert_eq!(found.fields.len(), 2);
    match find_format(&schema, &"zz".to_string()) {
        Err(FormatError::UnknownFormat(name)) => assert_eq!(name, "zz"),
        _ => panic!("expected an unknown-format error"),
    }
}

#[test]
fn checked_length_reports_overflow() {
    assert_eq!(parseit::checked_format_length(&format(&[2, 3]).fields), Some(5));
    assert_eq!(parseit::checked_format_length(&format(&[usize::MAX, 1]).fields), None);
    assert_eq!(parseit::checked_format_length(&[]), Some(0));
}

#[test]
fn overlong_format_never_matches() {
    let formats = vec![("huge".to_string(), format(&[usize::MAX, 1])), ("five".to_string(), format(&[5]))];
    assert_eq!(deduce_format(b"abcde", &formats).unwrap(), "five");
}
