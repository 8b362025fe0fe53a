use parseit::transpose_records;

fn strings(v: &[&str]) -> Vec<String> {
    v.iter().map(|s| s.to_string()).collect()
}

#[test]
fn transpose_gives_three_columns_per_value() {
    let headers = strings(&["a", "b"]);
    let records = vec![strings(&["1", "2"]), strings(&["3", "4"]), strings(&["5", "6"])];
    let (h, rows) = transpose_records(&headers, &records);
    assert_eq!(h, strings(&["#", "Columna", "Valor"]));
    assert_eq!(rows.len(), 6);
    assert!(rows.iter().all(|r| r.len() == 3));
    assert_eq!(
        rows,
        vec![
            strings(&["1", "a", "1"]),
            strings(&["1", "b", "2"]),
            strings(&["2", "a", "3"]),
            strings(&["2", "b", "4"]),
            strings(&["3", "a", "5"]),
            strings(&["3", "b", "6"]),
        ]
    );
}

#[test]
fn transpose_labels_columns_past_the_header() {
    let headers = strings(&["a"]);
    let records = vec![strings(&["x", "y", "z"])];
    let (_, rows) = transpose_records(&headers, &records);
    assert_eq!(rows[1], strings(&["1", "col_2", "y"]));
    assert_eq!(rows[2], strings(&["1", "col_3", "z"]));
}

#[test]
fn transpose_of_no_records_is_empty() {
    let (_, rows) = transpose_records(&strings(&["a"]), &Vec::new());
    assert!(rows.is_empty());
}

#[test]
fn transpose_numbers_rows_past_nine() {
    let headers = strings(&["a"]);
    let records: Vec<Vec<String>> = (0..12).map(|i| vec![i.to_string()]).collect();
    let (_, rows) = transpose_records(&headers, &records);
    assert_eq!(rows[11], strings(&["12", "a", "11"]));
}
