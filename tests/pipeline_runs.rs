use catalog_digitizer::classify::FamilySchema;
use catalog_digitizer::model::{LineSegment, Page, TextSpan};
use catalog_digitizer::pack::{families_file_text, family_file_name, family_file_text};
use catalog_digitizer::pipeline::{Run, SKIPPED_GRID_NOTE};

fn h(y: i32) -> LineSegment {
    LineSegment { x0: 0, y0: y, x1: 90, y1: y }
}

fn v(x: i32) -> LineSegment {
    LineSegment { x0: x, y0: 0, x1: x, y1: 60 }
}

fn cell(text: &str, col: i32, row: i32) -> TextSpan {
    TextSpan { text: text.to_string(), x0: col * 30 + 5, y0: row * 20 + 5, x1: col * 30 + 15, y1: row * 20 + 15, font_size: 10 }
}

fn sizes_page(n: u32, first: &str, second: &str) -> Page {
    let mut spans = vec![cell("family", 0, 0), cell("size", 1, 0), cell("mamax", 2, 0)];
    spans.push(cell("R", 0, 1));
    spans.push(cell(first, 1, 1));
    spans.push(cell("100", 2, 1));
    spans.push(cell("R", 0, 2));
    spans.push(cell(second, 1, 2));
    spans.push(cell("200", 2, 2));
    Page {
        page_number: n,
        text_spans: spans,
        line_segments: vec![h(0), h(20), h(40), h(60), v(0), v(30), v(60), v(90)],
    }
}

fn blank_page(n: u32) -> Page {
    Page { page_number: n, text_spans: vec![], line_segments: vec![] }
}

fn unknown_page(n: u32) -> Page {
    let mut p = sizes_page(n, "a", "b");
    p.text_spans[0].text = "colour".to_string();
    p.text_spans[1].text = "weight".to_string();
    p.text_spans[2].text = "shade".to_string();
    p
}

#[test]
fn cancel_after_two_of_ten_pages() {
    let mut run = Run::new(10);
    assert!(run.add_page(&sizes_page(1, "37", "47"), &Vec::new()));
    assert!(run.add_page(&blank_page(2), &Vec::new()));
    assert_eq!(run.progress().pages_done, 2);
    assert_eq!(run.progress().pages_total, 10);
    run.cancel();
    assert!(run.cancelled());
    assert_eq!(run.progress().pages_done, 2);
    assert!(!run.add_page(&blank_page(3), &Vec::new()));
    assert!(run.finish().is_none());
}

#[test]
fn no_grids_still_gives_every_file() {
    let mut run = Run::new(3);
    for n in 1..=3 {
        assert!(run.add_page(&blank_page(n), &Vec::new()));
    }
    let pack = run.finish().expect("complete run");
    assert_eq!(pack.coverage.tables_found, 0);
    assert_eq!(pack.coverage.tables_parsed, 0);
    assert_eq!(pack.coverage.rows_emitted, 0);
    assert_eq!(family_file_text(&pack, 0), "family,size,mamax\n");
    assert_eq!(family_file_text(&pack, 1), "family,stage,i,admissible,notes\n");
    assert_eq!(family_file_text(&pack, 2), "family,size,style,D,D1,D2,L1,L2,fit,optional_flag\n");
    assert_eq!(family_file_text(&pack, 3), "family,size,mounting_code,pivoted,notes\n");
    assert_eq!(family_file_text(&pack, 4), "poles,hp,kw,n_sync,notes\n");
    assert_eq!(family_file_text(&pack, 5), "family,size,overhung,axial,thermal_flag\n");
    assert_eq!(families_file_text(&pack), "family\n");
    assert_eq!(family_file_name(FamilySchema::Limits), "limits.csv");
}

#[test]
fn unfinished_run_gives_no_pack() {
    let mut run = Run::new(2);
    assert!(run.add_page(&blank_page(1), &Vec::new()));
    assert!(run.finish().is_none());
}

#[test]
fn pages_out_of_order_are_refused() {
    let mut run = Run::new(3);
    assert!(run.add_page(&blank_page(2), &Vec::new()));
    assert!(!run.add_page(&blank_page(1), &Vec::new()));
    assert!(!run.add_page(&blank_page(2), &Vec::new()));
    assert_eq!(run.progress().pages_done, 1);
}

#[test]
fn rows_come_out_in_page_then_row_order() {
    let mut run = Run::new(2);
    assert!(run.add_page(&sizes_page(1, "37", "47"), &Vec::new()));
    assert!(run.add_page(&sizes_page(5, "57", "67"), &Vec::new()));
    let pack = run.finish().expect("complete run");
    assert_eq!(
        family_file_text(&pack, 0),
        "family,size,mamax\nR,37,100\nR,47,200\nR,57,100\nR,67,200\n"
    );
    assert_eq!(pack.provenance.len(), 2);
    assert_eq!(pack.provenance[0].family, FamilySchema::Sizes);
    assert_eq!(pack.provenance[0].confidence, 100);
    assert_eq!(pack.provenance[0].rows, 2);
    assert_eq!((pack.provenance[1].page, pack.provenance[1].table_id), (5, 1));
}

#[test]
fn rows_emitted_counts_known_rows_only() {
    let mut run = Run::new(3);
    assert!(run.add_page(&sizes_page(1, "37", "47"), &Vec::new()));
    assert!(run.add_page(&unknown_page(2), &Vec::new()));
    assert!(run.add_page(&blank_page(3), &Vec::new()));
    assert_eq!(run.progress().tables_found, 2);
    let pack = run.finish().expect("complete run");
    assert_eq!(pack.coverage.tables_found, 2);
    assert_eq!(pack.coverage.tables_parsed, 1);
    let written: usize = pack.family_rows.iter().map(|s| s.len()).sum();
    assert_eq!(pack.coverage.rows_emitted as usize, written);
    assert_eq!(pack.coverage.rows_emitted, 2);
    assert_eq!(pack.provenance.len(), 2);
    assert_eq!(pack.provenance[1].family, FamilySchema::Unknown);
}

#[test]
fn families_file_lists_each_family_once() {
    let mut run = Run::new(2);
    let mut second = sizes_page(2, "57", "67");
    second.text_spans[6].text = "K".to_string();
    assert!(run.add_page(&sizes_page(1, "37", "47"), &Vec::new()));
    assert!(run.add_page(&second, &Vec::new()));
    let pack = run.finish().expect("complete run");
    assert_eq!(families_file_text(&pack), "family\nR\nK\n");
}

#[test]
fn single_cell_grid_is_found_and_noted_but_yields_no_rows() {
    let mut run = Run::new(1);
    let page = Page {
        page_number: 1,
        text_spans: vec![cell("x", 0, 0)],
        line_segments: vec![h(0), h(20), LineSegment { x0: 0, y0: 0, x1: 0, y1: 20 }, LineSegment { x0: 90, y0: 0, x1: 90, y1: 20 }],
    };
    assert!(run.add_page(&page, &Vec::new()));
    assert_eq!(run.progress().tables_found, 1);
    let pack = run.finish().expect("complete run");
    assert_eq!(pack.coverage.tables_found, 1);
    assert_eq!(pack.coverage.tables_parsed, 0);
    assert_eq!(pack.coverage.rows_emitted, 0);
    assert_eq!(pack.provenance.len(), 1);
    assert_eq!(pack.provenance[0].family, FamilySchema::Unknown);
    assert_eq!(pack.provenance[0].notes, SKIPPED_GRID_NOTE);
}
