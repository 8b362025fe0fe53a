use parseit::{
    decode_record, parse_records, parse_to_records, split_into_lines, ConfigSchema,
    FieldDefinition, FormatDefinition,
};

fn field(name: &str, len: usize, tipo: &str, param1: &str) -> FieldDefinition {
    FieldDefinition {
        nombre: name.to_string(),
        len,
        tipo: tipo.to_string(),
        param1: param1.to_string(),
        param2: String::new(),
    }
}

fn schema_with_provinces() -> ConfigSchema {
    ConfigSchema {
        formats: vec![(
            "sample".to_string(),
            FormatDefinition {
                category: "test".to_string(),
                delimiter: String::new(),
                fields: vec![field("code", 2, "table", "provinces")],
            },
        )],
        tables: vec![(
            "provinces".to_string(),
            vec![("01".to_string(), "Buenos Aires".to_string())],
        )],
        shortcuts: Vec::new(),
    }
}

#[test]
fn lookup_annotates_known_code() {
    let schema = schema_with_provinces();
    let fields = vec![field("code", 2, "table", "provinces")];
    assert_eq!(decode_record("01", &fields, &schema, false, false), vec!["01 - Buenos Aires"]);
}

#[test]
fn lookup_leaves_unknown_code() {
    let schema = schema_with_provinces();
    let fields = vec![field("code", 2, "table", "provinces")];
    assert_eq!(decode_record("99", &fields, &schema, false, false), vec!["99"]);
}

#[test]
fn lookup_suppressed_keeps_raw_value() {
    let schema = schema_with_provinces();
    let fields = vec![field("code", 2, "table", "provinces")];
    assert_eq!(decode_record("01", &fields, &schema, false, true), vec!["01"]);
}

#[test]
fn lookup_in_missing_table_keeps_raw_value() {
    let schema = schema_with_provinces();
    let fields = vec![field("code", 2, "table", "cities")];
    assert_eq!(decode_record("01", &fields, &schema, false, false), vec!["01"]);
}

#[test]
fn fields_are_sliced_and_trimmed() {
    let schema = schema_with_provinces();
    let fields = vec![
        field("name", 5, "string", ""),
        field("amount", 8, "zamount", "2"),
        field("rate", 6, "amount", ""),
        field("qty", 4, "numeric", "0"),
    ];
    let record = decode_record("ab   000123451234,5  12", &fields, &schema, true, false);
    assert_eq!(record, vec!["ab", "123,45", "1.234,50", "12"]);
}

#[test]
fn truncated_line_gives_short_record() {
    let schema = schema_with_provinces();
    let fields = vec![field("a", 3, "string", ""), field("b", 3, "string", ""), field("c", 3, "string", "")];
    let record = decode_record("abcde", &fields, &schema, false, false);
    assert_eq!(record, vec!["abc", ""]);
    assert!(record.len() < fields.len());
}

#[test]
fn truncated_line_does_not_stop_later_lines() {
    let schema = schema_with_provinces();
    let fields = vec![field("a", 3, "string", ""), field("b", 3, "string", ""), field("c", 3, "string", "")];
    let records = parse_records(b"abcdefghi\nabcde\nxyz123456", &fields, &schema, false, false);
    assert_eq!(records.len(), 3);
    assert_eq!(records[0], vec!["abc", "def", "ghi"]);
    assert_eq!(records[1], vec!["abc", ""]);
    assert_eq!(records[2], vec!["xyz", "123", "456"]);
}

#[test]
fn last_field_past_the_end_is_empty() {
    let schema = schema_with_provinces();
    let fields = vec![field("a", 3, "string", ""), field("b", 3, "string", "")];
    assert_eq!(decode_record("abcd", &fields, &schema, false, false), vec!["abc", ""]);
}

#[test]
fn legacy_bytes_decode_to_one_character_each() {
    let schema = schema_with_provinces();
    let fields = vec![field("a", 3, "string", ""), field("b", 1, "string", "")];
    let records = parse_records(&[b'N', 0xD1, 0x80, b'x'], &fields, &schema, false, false);
    assert_eq!(records, vec![vec!["N\u{d1}\u{20ac}".to_string(), "x".to_string()]]);
}

#[test]
fn lines_split_at_newlines() {
    assert_eq!(split_into_lines(b"ab\ncd\n"), vec![b"ab".to_vec(), b"cd".to_vec()]);
    assert_eq!(split_into_lines(b"ab\n\ncd"), vec![b"ab".to_vec(), Vec::new(), b"cd".to_vec()]);
    assert!(split_into_lines(b"").is_empty());
}

#[test]
fn parse_gives_field_names_as_header() {
    let schema = schema_with_provinces();
    let fields = vec![field("code", 2, "table", "provinces"), field("n", 3, "numeric", "0")];
    let (headers, records) = parse_to_records(b"01123\n02 45", &fields, &schema, false, false, false);
    assert_eq!(headers, vec!["code", "n"]);
    assert_eq!(records, vec![vec!["01 - Buenos Aires", "123"], vec!["02", "45"]]);
}

#[test]
fn parse_in_long_form() {
    let schema = schema_with_provinces();
    let fields = vec![field("code", 2, "table", "provinces"), field("n", 3, "numeric", "0")];
    let (headers, records) = parse_to_records(b"01123\n02", &fields, &schema, false, true, true);
    assert_eq!(headers, vec!["#", "Columna", "Valor"]);
    assert_eq!(
        records,
        vec![
            vec!["1", "code", "01"],
            vec!["1", "n", "123"],
            vec!["2", "code", "02"],
            vec!["2", "n", ""],
        ]
    );
}

#[test]
fn first_overrun_names_the_field_past_the_end() {
    let fields = vec![field("a", 3, "string", ""), field("b", 3, "string", ""), field("c", 3, "string", "")];
    assert_eq!(parseit::first_overrun("abcde", &fields), Some(1));
    assert_eq!(parseit::first_overrun("abcdefgh", &fields), Some(2));
    assert_eq!(parseit::first_overrun("abcdefghi", &fields), None);
    assert_eq!(parseit::first_overrun("abcdefghijk", &fields), None);
}

#[test]
fn record_lines_decode_each_line() {
    let lines = parseit::record_lines(&[b'a', 0xE9, b'\n', b'b', b'\r', b'\n']);
    assert_eq!(lines, vec!["a\u{e9}".to_string(), "b\r".to_string()]);
}
