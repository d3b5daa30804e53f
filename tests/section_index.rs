use catalog_digitizer::model::{Page, TextSpan};
use catalog_digitizer::section::{body_font_size, build_index};

fn span(text: &str, x0: i32, y0: i32, font_size: u32) -> TextSpan {
    TextSpan { text: text.to_string(), x0, y0, x1: x0 + 40, y1: y0 + 10, font_size }
}

#[test]
fn body_size_is_lower_median() {
    assert_eq!(body_font_size(&vec![span("a", 0, 0, 9), span("b", 0, 0, 14), span("c", 0, 0, 10), span("d", 0, 0, 12)]), 10);
    assert_eq!(body_font_size(&vec![span("a", 0, 0, 7)]), 7);
}

#[test]
fn headings_are_large_spans_that_start_a_line() {
    let page = Page {
        page_number: 4,
        text_spans: vec![
            span("body", 0, 300, 10),
            span("Motors", 0, 200, 16),
            span("more body", 0, 320, 10),
            span("Sizes", 0, 100, 16),
            span("inline big", 50, 320, 16),
            span("text", 0, 340, 10),
        ],
        line_segments: vec![],
    };
    let index = build_index(&vec![page]);
    assert_eq!(index.len(), 2);
    assert_eq!(index[0].title, "Sizes");
    assert_eq!(index[0].y_position, 100);
    assert_eq!(index[1].title, "Motors");
    assert_eq!(index[1].page, 4);
}

#[test]
fn document_without_headings_has_empty_index() {
    let pages = vec![
        Page { page_number: 1, text_spans: vec![span("a", 0, 0, 10), span("b", 0, 20, 10)], line_segments: vec![] },
        Page { page_number: 2, text_spans: vec![], line_segments: vec![] },
    ];
    assert!(build_index(&pages).is_empty());
    assert!(build_index(&Vec::new()).is_empty());
}

#[test]
fn anchors_follow_page_order() {
    let pages = vec![
        Page { page_number: 1, text_spans: vec![span("One", 0, 50, 20), span("x", 0, 60, 10), span("y", 0, 70, 10)], line_segments: vec![] },
        Page { page_number: 2, text_spans: vec![span("Two", 0, 10, 20), span("x", 0, 60, 10), span("y", 0, 70, 10)], line_segments: vec![] },
    ];
    let index = build_index(&pages);
    assert_eq!(index.len(), 2);
    assert_eq!((index[0].page, index[0].title.as_str()), (1, "One"));
    assert_eq!((index[1].page, index[1].title.as_str()), (2, "Two"));
}
