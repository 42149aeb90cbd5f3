use ibmparse::{ParseError, Row};

#[test]
fn char_row_renders_as_varchar() {
    let row = Row::new(vec!["1", "AGE", "Char", "6"]).unwrap();
    assert_eq!(row.string(), "age varchar(6),");
}

#[test]
fn num_row_renders_as_int() {
    let row = Row::new(vec!["2", "ADMDATE", "Num", "4"]).unwrap();
    assert_eq!(row.string(), "admdate int,");
}

#[test]
fn order_and_name_are_case_folded() {
    let row = Row::new(vec!["3A", "MixedCase", "NUM", "8"]).unwrap();
    assert_eq!(row.order(), "3a");
    assert_eq!(row.variable(), "mixedcase");
}

#[test]
fn length_is_kept_verbatim() {
    let row = Row::new(vec!["1", "NAME", "char", "12"]).unwrap();
    assert_eq!(row.string(), "name varchar(12),");
}

#[test]
fn extra_tokens_are_ignored() {
    let row = Row::new(vec!["1", "AGE", "Char", "6", "F6", "a label"]).unwrap();
    assert_eq!(row.string(), "age varchar(6),");
}

#[test]
fn three_tokens_are_insufficient() {
    let r = Row::new(vec!["1", "AGE", "Char"]);
    assert_eq!(r.err().unwrap(), ParseError::InsufficientFields);
}

#[test]
fn no_tokens_are_insufficient() {
    let r = Row::new(vec![]);
    assert_eq!(r.err().unwrap(), ParseError::InsufficientFields);
}

#[test]
fn date_tag_is_unrecognized() {
    let r = Row::new(vec!["1", "ADMDATE", "Date", "8"]);
    assert_eq!(r.err().unwrap(), ParseError::UnrecognizedType);
}
