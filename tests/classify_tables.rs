use catalog_digitizer::classify::{classify, select_family, FamilySchema, MIN_CONFIDENCE};
use catalog_digitizer::cell::CellBox;
use catalog_digitizer::grid::Table;
use catalog_digitizer::section::SectionAnchor;

fn row(cells: &[&str]) -> Vec<String> {
    cells.iter().map(|c| c.to_string()).collect()
}

fn anchor(page: u32, title: &str) -> SectionAnchor {
    SectionAnchor { page, title: title.to_string(), y_position: 10 }
}

#[test]
fn sizes_header_is_sizes() {
    let (family, confidence) = select_family(&row(&["family", "size", "mamax"]));
    assert_eq!(family, FamilySchema::Sizes);
    assert!(confidence >= MIN_CONFIDENCE);
    assert_eq!(confidence, 100);
}

#[test]
fn header_match_ignores_case_and_surrounding_text() {
    let (family, _) = select_family(&row(&["Family", "Size (mm)", "MAMAX"]));
    assert_eq!(family, FamilySchema::Sizes);
}

#[test]
fn motors_header_is_motors() {
    let (family, confidence) = select_family(&row(&["Poles", "HP", "kW", "n_sync", "Notes"]));
    assert_eq!(family, FamilySchema::Motors);
    assert_eq!(confidence, 100);
}

#[test]
fn unrelated_header_is_unknown() {
    let (family, confidence) = select_family(&row(&["colour", "weight"]));
    assert_eq!(family, FamilySchema::Unknown);
    assert!(confidence < MIN_CONFIDENCE);
}

#[test]
fn empty_table_is_unknown() {
    let (family, _) = select_family(&Vec::new());
    assert_eq!(family, FamilySchema::Unknown);
}

#[test]
fn equal_scores_go_to_the_earlier_family() {
    // Ratios, Mountings and Limits each find three keywords in five columns.
    let (family, confidence) = select_family(&row(&["family", "size", "notes", "axial", "z"]));
    assert_eq!(family, FamilySchema::Ratios);
    assert_eq!(confidence, 66);
}

#[test]
fn below_threshold_reports_best_score() {
    let (family, confidence) = select_family(&row(&["family", "size", "q", "w", "e"]));
    assert_eq!(family, FamilySchema::Unknown);
    assert_eq!(confidence, 50);
}

#[test]
fn classified_rows_skip_header_and_keep_order() {
    let table = Table {
        page: 7,
        bbox: CellBox { xa: 0, xb: 90, ya: 0, yb: 60 },
        rows: vec![row(&["family", "size", "mamax"]), row(&["R", "37", "200"]), row(&["R", "47", "400"])],
    };
    let anchors = vec![anchor(2, "Intro"), anchor(6, "Helical gear units"), anchor(9, "Motors")];
    let (rows, record) = classify(&table, 3, &anchors);
    assert_eq!(rows.len(), 2);
    assert_eq!(rows[0].family, FamilySchema::Sizes);
    assert_eq!(rows[0].row_index, 1);
    assert_eq!(rows[1].row_index, 2);
    assert_eq!(rows[1].cells, row(&["R", "47", "400"]));
    assert_eq!(rows[0].table_id, 3);
    assert_eq!(record.family, FamilySchema::Sizes);
    assert_eq!(record.confidence, 100);
    assert_eq!(record.notes, "Helical gear units");
    assert_eq!(record.page, 7);
    assert_eq!(record.rows, 2);
}

#[test]
fn unknown_table_keeps_all_rows() {
    let table = Table { page: 1, bbox: CellBox { xa: 0, xb: 60, ya: 0, yb: 40 }, rows: vec![row(&["a", "b"]), row(&["c", "d"])] };
    let (rows, record) = classify(&table, 0, &Vec::new());
    assert_eq!(record.family, FamilySchema::Unknown);
    assert_eq!(record.notes, "");
    assert_eq!(rows.len(), 2);
    assert_eq!(rows[0].cells, row(&["a", "b"]));
    assert_eq!(rows[0].family, FamilySchema::Unknown);
}
