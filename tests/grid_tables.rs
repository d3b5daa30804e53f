use catalog_digitizer::cell::CellBox;
use catalog_digitizer::grid::{cluster_boundaries, extract_simple_tables};
use catalog_digitizer::model::{LineSegment, Page, TextSpan};

fn h(y: i32, x0: i32, x1: i32) -> LineSegment {
    LineSegment { x0, y0: y, x1, y1: y }
}

fn v(x: i32, y0: i32, y1: i32) -> LineSegment {
    LineSegment { x0: x, y0, x1: x, y1 }
}

fn span(text: &str, x0: i32, y0: i32, x1: i32, y1: i32) -> TextSpan {
    TextSpan { text: text.to_string(), x0, y0, x1, y1, font_size: 10 }
}

#[test]
fn grid_of_two_rows_and_three_columns() {
    let page = Page {
        page_number: 1,
        text_spans: vec![span("Family", 10, 140, 40, 160)],
        line_segments: vec![h(100, 0, 100), h(200, 0, 100), v(0, 100, 200), v(50, 100, 200), v(100, 100, 200)],
    };
    let tables = extract_simple_tables(&page);
    assert_eq!(tables.len(), 1);
    assert_eq!(tables[0].page, 1);
    assert_eq!(tables[0].rows.len(), 1);
    assert_eq!(tables[0].rows[0].len(), 2);
    assert_eq!(tables[0].rows[0][0], "Family");
    assert_eq!(tables[0].rows[0][1], "");
}

#[test]
fn spans_in_one_cell_are_joined_by_spaces() {
    let page = Page {
        page_number: 3,
        text_spans: vec![span("R", 5, 110, 15, 120), span("37", 20, 110, 30, 120), span("x", 60, 160, 70, 170)],
        line_segments: vec![h(100, 0, 100), h(150, 0, 100), h(200, 0, 100), v(0, 100, 200), v(50, 100, 200), v(100, 100, 200)],
    };
    let tables = extract_simple_tables(&page);
    assert_eq!(tables.len(), 1);
    assert_eq!(tables[0].rows, vec![vec!["R 37".to_string(), String::new()], vec![String::new(), "x".to_string()]]);
}

#[test]
fn every_row_has_the_same_column_count() {
    let page = Page {
        page_number: 2,
        text_spans: vec![span("a", 1, 101, 3, 103)],
        line_segments: vec![h(100, 0, 90), h(120, 0, 90), h(140, 0, 90), h(160, 0, 90), v(0, 100, 160), v(30, 100, 160), v(60, 100, 160), v(90, 100, 160)],
    };
    let tables = extract_simple_tables(&page);
    assert_eq!(tables.len(), 1);
    assert_eq!(tables[0].rows.len(), 3);
    for r in &tables[0].rows {
        assert_eq!(r.len(), 3);
    }
}

#[test]
fn single_cell_grid_is_discarded() {
    let page = Page {
        page_number: 1,
        text_spans: vec![],
        line_segments: vec![h(100, 0, 100), h(200, 0, 100), v(0, 100, 200), v(100, 100, 200)],
    };
    assert!(extract_simple_tables(&page).is_empty());
}

#[test]
fn page_without_lines_has_no_table() {
    let page = Page { page_number: 1, text_spans: vec![span("x", 0, 0, 5, 5)], line_segments: vec![] };
    assert!(extract_simple_tables(&page).is_empty());
}

#[test]
fn unconnected_lines_form_no_grid() {
    let page = Page {
        page_number: 1,
        text_spans: vec![],
        line_segments: vec![h(100, 0, 40), h(200, 0, 100), v(0, 100, 200), v(50, 100, 200), v(100, 100, 200)],
    };
    assert!(extract_simple_tables(&page).is_empty());
}

#[test]
fn close_lines_merge_into_one_boundary() {
    assert_eq!(cluster_boundaries(&vec![100, 101, 200, 102, 199, 300], 2), vec![100, 199, 300]);
    assert_eq!(cluster_boundaries(&vec![], 2), Vec::<i64>::new());
    assert_eq!(cluster_boundaries(&vec![5, 5, 5], 0), vec![5]);
}

#[test]
fn detection_is_deterministic() {
    let page = Page {
        page_number: 4,
        text_spans: vec![span("Family", 10, 140, 40, 160)],
        line_segments: vec![v(100, 100, 200), h(200, 0, 100), v(0, 100, 200), h(100, 0, 100), v(50, 100, 200)],
    };
    let a = extract_simple_tables(&page);
    let b = extract_simple_tables(&page);
    assert_eq!(a.len(), b.len());
    assert_eq!(a[0].rows, b[0].rows);
}

#[test]
fn cell_text_reads_left_to_right_then_top_to_bottom() {
    let page = Page {
        page_number: 1,
        text_spans: vec![
            span("37", 20, 110, 30, 120),
            span("R", 5, 110, 15, 120),
            span("gear", 55, 130, 75, 140),
            span("Helical", 55, 110, 95, 120),
        ],
        line_segments: vec![h(100, 0, 100), h(200, 0, 100), v(0, 100, 200), v(50, 100, 200), v(100, 100, 200)],
    };
    let tables = extract_simple_tables(&page);
    assert_eq!(tables.len(), 1);
    assert_eq!(tables[0].rows, vec![vec!["R 37".to_string(), "Helical gear".to_string()]]);
}

#[test]
fn nested_grid_gives_way_to_the_larger_one() {
    let page = Page {
        page_number: 2,
        text_spans: vec![span("a", 5, 5, 10, 10), span("b", 40, 20, 50, 30)],
        line_segments: vec![
            h(0, 0, 90),
            h(60, 0, 90),
            v(0, 0, 60),
            v(30, 0, 60),
            v(60, 0, 60),
            v(90, 0, 60),
            h(30, 0, 30),
            v(15, 0, 30),
        ],
    };
    let tables = extract_simple_tables(&page);
    assert_eq!(tables.len(), 1);
    assert_eq!(tables[0].bbox, CellBox { xa: 0, xb: 90, ya: 0, yb: 60 });
    assert_eq!(tables[0].rows, vec![vec!["a".to_string(), "b".to_string(), String::new()]]);
}

#[test]
fn separate_grids_give_one_table_each() {
    let page = Page {
        page_number: 1,
        text_spans: vec![span("left", 5, 5, 15, 15), span("right", 135, 5, 145, 15)],
        line_segments: vec![
            h(0, 0, 60),
            h(20, 0, 60),
            v(0, 0, 20),
            v(30, 0, 20),
            v(60, 0, 20),
            h(0, 100, 160),
            h(20, 100, 160),
            v(100, 0, 20),
            v(130, 0, 20),
            v(160, 0, 20),
        ],
    };
    let mut tables = extract_simple_tables(&page);
    assert_eq!(tables.len(), 2);
    tables.sort_by_key(|t| t.bbox.xa);
    assert_eq!(tables[0].bbox, CellBox { xa: 0, xb: 60, ya: 0, yb: 20 });
    assert_eq!(tables[0].rows, vec![vec!["left".to_string(), String::new()]]);
    assert_eq!(tables[1].bbox, CellBox { xa: 100, xb: 160, ya: 0, yb: 20 });
    assert_eq!(tables[1].rows, vec![vec![String::new(), "right".to_string()]]);
}

#[test]
fn parts_of_a_grid_give_no_extra_tables() {
    // Each row band is itself a ruled rectangle of two cells; the whole grid
    // has four and is preferred to both.
    let page = Page {
        page_number: 1,
        text_spans: vec![],
        line_segments: vec![h(0, 0, 60), h(20, 0, 60), h(40, 0, 60), v(0, 0, 40), v(30, 0, 40), v(60, 0, 40)],
    };
    let tables = extract_simple_tables(&page);
    assert_eq!(tables.len(), 1);
    assert_eq!(tables[0].bbox, CellBox { xa: 0, xb: 60, ya: 0, yb: 40 });
    assert_eq!(tables[0].rows.len(), 2);
}
