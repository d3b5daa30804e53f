use catalog_digitizer::csv::{csv_escape, csv_line, csv_text, csv_unescape};

fn row(cells: &[&str]) -> Vec<String> {
    cells.iter().map(|c| c.to_string()).collect()
}

#[test]
fn escape_leaves_plain_field_bare() {
    assert_eq!(csv_escape("R37"), "R37");
    assert_eq!(csv_escape(""), "");
}

#[test]
fn escape_quotes_field_with_comma() {
    assert_eq!(csv_escape("a,b"), "\"a,b\"");
}

#[test]
fn escape_doubles_inner_quotes() {
    assert_eq!(csv_escape("5\" shaft"), "\"5\"\" shaft\"");
}

#[test]
fn escape_quotes_field_with_newline() {
    assert_eq!(csv_escape("line1\nline2"), "\"line1\nline2\"");
}

#[test]
fn line_joins_escaped_fields() {
    assert_eq!(csv_line(&row(&["R37", "a,b", "x"])), "R37,\"a,b\",x\n");
    assert_eq!(csv_line(&row(&[])), "\n");
    assert_eq!(csv_line(&row(&["", ""])), ",\n");
}

#[test]
fn text_is_header_then_lines() {
    let rows = vec![row(&["R", "37", "200"]), row(&["K", "47", "\"q\""])];
    assert_eq!(
        csv_text("family,size,mamax\n", &rows),
        "family,size,mamax\nR,37,200\nK,47,\"\"\"q\"\"\"\n"
    );
    assert_eq!(csv_text("family\n", &Vec::new()), "family\n");
}

#[test]
fn escaped_fields_read_back_unchanged() {
    for s in ["a,b", "say \"hi\"", "two\nlines", "\"", "\"\"", ",", "\"a,\"\n", "plain", ""] {
        assert_eq!(csv_unescape(&csv_escape(s)), s);
    }
}

#[test]
fn unescape_reads_doubled_quotes() {
    assert_eq!(csv_unescape("\"x\"\"y\""), "x\"y");
    assert_eq!(csv_unescape("bare"), "bare");
    assert_eq!(csv_unescape("\""), "\"");
}
