use fat_piggy_bank::CsvError;
use fat_piggy_bank::parse_csv;

fn cols(line: &str) -> Vec<String> {
    parse_csv(line).unwrap()
}

#[test]
fn plain_columns() {
    assert_eq!(cols("a,b,c"), vec!["a", "b", "c"]);
}

#[test]
fn quoted_column_keeps_comma() {
    assert_eq!(cols("\"a,b\",c"), vec!["a,b", "c"]);
}

#[test]
fn quote_round_trip() {
    let text = "he said \"hi\", right";
    let encoded = "\"he said \"\"hi\"\", right\"";
    assert_eq!(cols(encoded), vec![text]);
}

#[test]
fn quote_round_trip_only_quotes() {
    assert_eq!(cols("\"\"\"\""), vec!["\""]);
}

#[test]
fn empty_quoted_column() {
    assert_eq!(cols("\"\",x"), vec!["", "x"]);
}

#[test]
fn empty_line_has_no_columns() {
    assert_eq!(cols(""), Vec::<String>::new());
}

#[test]
fn trailing_separator_is_dropped() {
    assert_eq!(cols("a,"), vec!["a"]);
}

#[test]
fn consecutive_separators_make_empty_column() {
    assert_eq!(cols("a,,b"), vec!["a", "", "b"]);
}

#[test]
fn multibyte_text_is_kept_whole() {
    assert_eq!(cols("héllo,wörld"), vec!["héllo", "wörld"]);
    assert_eq!(cols("\"a\u{310}e\u{301},x\",y"), vec!["a\u{310}e\u{301},x", "y"]);
}

#[test]
fn leading_separator_is_rejected() {
    assert_eq!(parse_csv(",a"), Err(CsvError::LeadingSeparator));
}

#[test]
fn unclosed_quote_is_rejected() {
    assert_eq!(parse_csv("\"abc"), Err(CsvError::UnclosedQuote));
}

#[test]
fn text_after_closed_quote_is_rejected() {
    assert_eq!(parse_csv("\"abc\"def"), Err(CsvError::SeparatorExpected));
}
