use parseit::{
    csv_record_line, format_summaries, html_row, join_values, sql_column_definitions,
    sql_column_names, sql_insert_statement, FieldDefinition, FormatDefinition, OutputKind,
};

fn strings(v: &[&str]) -> Vec<String> {
    v.iter().map(|s| s.to_string()).collect()
}

#[test]
fn output_kinds_are_named() {
    assert_eq!(OutputKind::from_name("csv"), Some(OutputKind::Csv));
    assert_eq!(OutputKind::from_name("term"), Some(OutputKind::Interactive));
    assert_eq!(OutputKind::from_name("sql"), Some(OutputKind::Sql));
    assert_eq!(OutputKind::from_name("txt"), Some(OutputKind::Text));
    assert_eq!(OutputKind::from_name("html"), Some(OutputKind::Html));
    assert_eq!(OutputKind::from_name("pdf"), None);
}

#[test]
fn csv_header_is_joined_as_is() {
    assert_eq!(join_values(&strings(&["a", "b c", "d"]), ";"), "a;b c;d");
    assert_eq!(join_values(&Vec::new(), ";"), "");
}

#[test]
fn csv_values_are_quoted_and_escaped() {
    assert_eq!(csv_record_line(&strings(&["1", "say \"hi\"", ""]), ","), "\"1\",\"say \"\"hi\"\"\",\"\"");
}

#[test]
fn sql_columns_are_cleaned() {
    assert_eq!(sql_column_names(&strings(&["fecha alta", "Código"])), strings(&["FECHA_ALTA", "CÓDIGO"]));
}

#[test]
fn sql_definitions_end_without_comma() {
    assert_eq!(
        sql_column_definitions(&strings(&["A", "B"])),
        "    A VARCHAR(255) NULL,\n    B VARCHAR(255) NULL"
    );
    assert_eq!(sql_column_definitions(&Vec::new()), "");
}

#[test]
fn sql_insert_quotes_values() {
    assert_eq!(
        sql_insert_statement("t", &strings(&["A", "B"]), &strings(&["x", "O'Brien"])),
        "INSERT INTO t (A, B) VALUES ('x', 'O''Brien');"
    );
}

#[test]
fn html_rows_wrap_each_value() {
    assert_eq!(html_row(&strings(&["a", "b"]), true), "      <tr><th>a</th><th>b</th></tr>");
    assert_eq!(html_row(&strings(&["1"]), false), "      <tr><td>1</td></tr>");
    assert_eq!(html_row(&Vec::new(), false), "      <tr></tr>");
}

fn format(category: &str, widths: &[usize]) -> FormatDefinition {
    FormatDefinition {
        category: category.to_string(),
        delimiter: String::new(),
        fields: widths
            .iter()
            .map(|w| FieldDefinition {
                nombre: "f".to_string(),
                len: *w,
                tipo: "string".to_string(),
                param1: String::new(),
                param2: String::new(),
            })
            .collect(),
    }
}

#[test]
fn summaries_are_ordered_by_category_then_name() {
    let formats = vec![
        ("zeta".to_string(), format("b", &[1, 2])),
        ("beta".to_string(), format("a", &[5])),
        ("alfa".to_string(), format("b", &[3])),
        ("gamma".to_string(), format("a", &[usize::MAX, 1])),
    ];
    let s = format_summaries(&formats);
    let order: Vec<(&str, &str)> = s.iter().map(|x| (x.category.as_str(), x.name.as_str())).collect();
    assert_eq!(order, vec![("a", "beta"), ("a", "gamma"), ("b", "alfa"), ("b", "zeta")]);
    assert_eq!(s[0].field_count, 1);
    assert_eq!(s[0].total_len, Some(5));
    assert_eq!(s[1].total_len, None);
    assert_eq!(s[3].total_len, Some(3));
}
