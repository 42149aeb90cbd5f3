use ibmparse::{find_table, order_rows, parse_i32, render_sql, Config, KeyError, Row};

#[test]
fn parse_i32_plain_and_signed() {
    assert_eq!(parse_i32("0"), Some(0));
    assert_eq!(parse_i32("17"), Some(17));
    assert_eq!(parse_i32("+12"), Some(12));
    assert_eq!(parse_i32("-5"), Some(-5));
}

#[test]
fn parse_i32_leading_zeros() {
    assert_eq!(parse_i32("0012"), Some(12));
    assert_eq!(parse_i32("00000000000000012"), Some(12));
    assert_eq!(parse_i32("-000"), Some(0));
}

#[test]
fn parse_i32_limits() {
    assert_eq!(parse_i32("2147483647"), Some(2147483647));
    assert_eq!(parse_i32("-2147483648"), Some(-2147483648));
    assert_eq!(parse_i32("2147483648"), None);
    assert_eq!(parse_i32("-2147483649"), None);
}

#[test]
fn parse_i32_rejects_non_numerals() {
    assert_eq!(parse_i32(""), None);
    assert_eq!(parse_i32("-"), None);
    assert_eq!(parse_i32("+"), None);
    assert_eq!(parse_i32("12a"), None);
    assert_eq!(parse_i32(" 12"), None);
    assert_eq!(parse_i32("1 2"), None);
}

#[test]
fn order_rows_sorts_ascending() {
    let rows = vec![
        Row::new(vec!["5", "C5", "Num", "1"]).unwrap(),
        Row::new(vec!["-3", "CNEG", "Num", "1"]).unwrap(),
        Row::new(vec!["2", "C2", "Char", "9"]).unwrap(),
    ];
    let sorted = order_rows(rows).unwrap();
    assert_eq!(sorted.len(), 3);
    assert_eq!(sorted[0].variable(), "cneg");
    assert_eq!(sorted[1].variable(), "c2");
    assert_eq!(sorted[2].variable(), "c5");
}

#[test]
fn order_rows_fails_on_empty() {
    assert_eq!(order_rows(vec![]).err().unwrap(), KeyError::Empty);
}

#[test]
fn order_rows_fails_on_non_integer_order() {
    let rows = vec![
        Row::new(vec!["1", "A", "Num", "1"]).unwrap(),
        Row::new(vec!["x2", "B", "Num", "1"]).unwrap(),
    ];
    assert_eq!(order_rows(rows).err().unwrap(), KeyError::BadOrder);
}

#[test]
fn render_sql_shapes_the_statement() {
    let rows = vec![
        Row::new(vec!["0", "ADMDATE", "Num", "4"]).unwrap(),
        Row::new(vec!["1", "AGE", "Char", "6"]).unwrap(),
    ];
    let sql = render_sql("people", &rows, "admdate");
    assert_eq!(
        sql,
        "DROP TABLE IF EXISTS people;\nCREATE TABLE people (\n\tadmdate int,\n\tage varchar(6),\n)\nSORTKEY(admdate);\n"
    );
}

#[test]
fn render_sql_with_no_columns() {
    let sql = render_sql("t", &vec![], "k");
    assert_eq!(sql, "DROP TABLE IF EXISTS t;\nCREATE TABLE t (\n)\nSORTKEY(k);\n");
}

#[test]
fn end_to_end_report_to_sql() {
    let contents = "#    Variable            Type    Length    Format
1 AGE      Char  6 F6
0 ADMDATE Num   4 F4";
    let rows = find_table(contents);
    let sorted = order_rows(rows).unwrap();
    let key = sorted[0].variable().clone();
    assert_eq!(key, "admdate");
    let sql = render_sql("people", &sorted, &key);
    assert_eq!(
        sql,
        "DROP TABLE IF EXISTS people;\nCREATE TABLE people (\n\tadmdate int,\n\tage varchar(6),\n)\nSORTKEY(admdate);\n"
    );
}

#[test]
fn config_needs_three_arguments() {
    let args = vec![String::from("prog"), String::from("people")];
    let r = Config::new(&args, true);
    assert_eq!(r.err().unwrap(), "Not enough arguments, expected 3");
}

#[test]
fn config_takes_table_and_file_names() {
    let args = vec![
        String::from("prog"),
        String::from("people"),
        String::from("report.txt"),
    ];
    let c = Config::new(&args, false).unwrap();
    assert_eq!(c.tablename, "people");
    assert_eq!(c.filename, "report.txt");
    assert!(!c.case_sensitive);
}
