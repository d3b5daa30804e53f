use catalog_digitizer::json::{coverage_json, push_json_string};
use catalog_digitizer::pack::CoverageStats;

#[test]
fn coverage_text_holds_counters_and_times() {
    let c = CoverageStats { tables_found: 12, tables_parsed: 0, rows_emitted: 305 };
    assert_eq!(
        coverage_json(c, "", "2024-01-02T03:04:05+00:00", "later"),
        "{\n  \"tables_found\": 12,\n  \"tables_parsed\": 0,\n  \"rows_emitted\": 305,\n  \"notes\": \"\",\n  \"started_at\": \"2024-01-02T03:04:05+00:00\",\n  \"finished_at\": \"later\"\n}\n"
    );
}

#[test]
fn json_strings_escape_quotes_and_controls() {
    let mut out = String::from("x=");
    push_json_string(&mut out, "a\"b\\c\nd\u{1}");
    assert_eq!(out, "x=\"a\\\"b\\\\c\\nd\\u0001\"");
}
