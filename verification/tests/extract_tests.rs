use ibmparse::find_table;

#[test]
#[allow(unused_variables)]
fn one_result() {
    let query = "duct";
    let contents = "#    Variable            Type    Length    Format          Label
        \
        0 ADMDATE Num   4
        1 AGE      Char  6
safe, fast, productive.
Pick three.";
    let rows = find_table(contents);
    assert_eq!(rows.len(), 0);
}

#[test]
fn no_header_yields_nothing() {
    let contents = "Observations  42
1 AGE Char 6 F6
2 WEIGHT Num 8 F8
just prose, no marker anywhere";
    let rows = find_table(contents);
    assert_eq!(rows.len(), 0);
}

#[test]
fn empty_report_yields_nothing() {
    assert_eq!(find_table("").len(), 0);
}

#[test]
fn token_window_excludes_short_and_long_lines() {
    let contents = "#    Variable Type Length
one two three
1 AGE Char 6
2 WEIGHT Num 8 F8
a b c d e f g h i j
3 HEIGHT Num 8 F8 Label";
    let rows = find_table(contents);
    // Only the two lines of five and six tokens contribute; three,
    // four and ten tokens never do.
    assert_eq!(rows.len(), 2);
    assert_eq!(rows[0].string(), "weight int,");
    assert_eq!(rows[1].string(), "height int,");
}

#[test]
fn extract_twice_is_identical() {
    let contents = "#    Variable Type Length Format
1 AGE Char 6 F6
2 WEIGHT Num 8 F8";
    let first = find_table(contents);
    let second = find_table(contents);
    assert_eq!(first.len(), second.len());
    for (a, b) in first.iter().zip(second.iter()) {
        assert_eq!(a.string(), b.string());
        assert_eq!(a.order(), b.order());
        assert_eq!(a.variable(), b.variable());
    }
}

#[test]
fn eleven_blank_lines_end_the_table() {
    let mut contents = String::from("#    Variable Type Length Format\n");
    contents.push_str("1 AGE Char 6 F6\n");
    for _ in 0..11 {
        contents.push('\n');
    }
    contents.push_str("2 WEIGHT Num 8 F8\n");
    let rows = find_table(&contents);
    assert_eq!(rows.len(), 1);
    assert_eq!(rows[0].string(), "age varchar(6),");
}

#[test]
fn ten_blank_lines_do_not_end_the_table() {
    let mut contents = String::from("#    Variable Type Length Format\n");
    contents.push_str("1 AGE Char 6 F6\n");
    for _ in 0..10 {
        contents.push('\n');
    }
    contents.push_str("2 WEIGHT Num 8 F8\n");
    let rows = find_table(&contents);
    assert_eq!(rows.len(), 2);
}

#[test]
fn unrecognized_type_drops_only_that_row() {
    let contents = "#    Variable Type Length Format
1 ADMDATE Date 8 F8
2 AGE Num 4 F4";
    let rows = find_table(contents);
    assert_eq!(rows.len(), 1);
    assert_eq!(rows[0].string(), "age int,");
}

#[test]
fn header_marker_alone_suffices() {
    let contents = "# something else entirely
1 AGE Char 6 F6";
    let rows = find_table(contents);
    assert_eq!(rows.len(), 1);
    assert_eq!(rows[0].string(), "age varchar(6),");
}

#[test]
fn rows_before_header_are_ignored() {
    let contents = "1 EARLY Num 4 F4
#    Variable Type Length Format
2 LATE Num 4 F4";
    let rows = find_table(contents);
    assert_eq!(rows.len(), 1);
    assert_eq!(rows[0].string(), "late int,");
}

#[test]
fn header_lines_do_not_reset_the_blank_run() {
    // A header line skips blank-run accounting entirely, so a run of
    // blanks continues across it.
    let mut contents = String::from("#    Variable Type Length Format\n");
    contents.push_str("1 AGE Char 6 F6\n");
    for _ in 0..6 {
        contents.push('\n');
    }
    contents.push_str("#    Variable Type Length Format\n");
    for _ in 0..5 {
        contents.push('\n');
    }
    contents.push_str("2 WEIGHT Num 8 F8\n");
    let rows = find_table(&contents);
    assert_eq!(rows.len(), 1);
    assert_eq!(rows[0].string(), "age varchar(6),");
}

#[test]
fn case_folding_ignores_the_configured_flag() {
    // The case-sensitivity flag travels in the configuration but the
    // extractor folds unconditionally; this pins that observed
    // behavior down.
    let args = vec![
        String::from("prog"),
        String::from("people"),
        String::from("report.txt"),
    ];
    let config = ibmparse::Config::new(&args, true).unwrap();
    assert!(config.case_sensitive);
    let rows = find_table("#    Variable Type Length Format\n1 AGE CHAR 6 F6\n");
    assert_eq!(rows.len(), 1);
    assert_eq!(rows[0].variable(), "age");
}

#[test]
fn crlf_lines_are_handled() {
    let contents = "#    Variable Type Length Format\r\n1 AGE Char 6 F6\r\n";
    let rows = find_table(contents);
    assert_eq!(rows.len(), 1);
    assert_eq!(rows[0].string(), "age varchar(6),");
}
