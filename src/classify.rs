//! Table classification: a table's header row is scored against a fixed list
//! of schema descriptors, and its rows are tagged with the winning family.
use vstd::prelude::*;
use crate::grid::Table;
use crate::section::SectionAnchor;
use crate::text::{chars_of, copy_row, copy_string, same_texts};

verus! {

/// The schema families, in their priority order, and the fallback `Unknown`.
#[derive(Clone, Copy, PartialEq, Eq, Structural, Debug)]
pub enum FamilySchema {
    Sizes,
    Ratios,
    Shafts,
    Mountings,
    Motors,
    Limits,
    Unknown,
}

/// Lowest confidence, in percent, at which a schema is accepted.
pub const MIN_CONFIDENCE: u64 = 60;

/// Position of a known family in the priority order.
pub open spec fn priority(f: FamilySchema) -> int {
    match f {
        FamilySchema::Sizes => 0,
        FamilySchema::Ratios => 1,
        FamilySchema::Shafts => 2,
        FamilySchema::Mountings => 3,
        FamilySchema::Motors => 4,
        FamilySchema::Limits => 5,
        FamilySchema::Unknown => 6,
    }
}

/// The known family at a priority position.
pub open spec fn family_at(i: int) -> FamilySchema {
    if i == 0 {
        FamilySchema::Sizes
    } else if i == 1 {
        FamilySchema::Ratios
    } else if i == 2 {
        FamilySchema::Shafts
    } else if i == 3 {
        FamilySchema::Mountings
    } else if i == 4 {
        FamilySchema::Motors
    } else if i == 5 {
        FamilySchema::Limits
    } else {
        FamilySchema::Unknown
    }
}

/// The header keywords of a family: the column names of its CSV file.
pub fn keywords(f: FamilySchema) -> (r: Vec<&'static str>)
    ensures
        r@.len() == columns_of(f),
        forall|i: int| 0 <= i < r@.len() ==> (#[trigger] r@[i])@ == keyword_spec(f, i),
{
    match f {
        FamilySchema::Sizes => vec!["family", "size", "mamax"],
        FamilySchema::Ratios => vec!["family", "stage", "i", "admissible", "notes"],
        FamilySchema::Shafts => vec!["family", "size", "style", "D", "D1", "D2", "L1", "L2", "fit", "optional_flag"],
        FamilySchema::Mountings => vec!["family", "size", "mounting_code", "pivoted", "notes"],
        FamilySchema::Motors => vec!["poles", "hp", "kw", "n_sync", "notes"],
        FamilySchema::Limits => vec!["family", "size", "overhung", "axial", "thermal_flag"],
        FamilySchema::Unknown => Vec::new(),
    }
}

/// Number of columns a family's table is expected to have.
pub open spec fn columns_of(f: FamilySchema) -> nat {
    match f {
        FamilySchema::Sizes => 3,
        FamilySchema::Ratios => 5,
        FamilySchema::Shafts => 10,
        FamilySchema::Mountings => 5,
        FamilySchema::Motors => 5,
        FamilySchema::Limits => 5,
        FamilySchema::Unknown => 0,
    }
}

/// The `i`-th header keyword of a family.
pub open spec fn keyword_spec(f: FamilySchema, i: int) -> Seq<char> {
    match f {
        FamilySchema::Sizes => seq!["family"@, "size"@, "mamax"@][i],
        FamilySchema::Ratios => seq!["family"@, "stage"@, "i"@, "admissible"@, "notes"@][i],
        FamilySchema::Shafts => seq![
            "family"@, "size"@, "style"@, "D"@, "D1"@, "D2"@, "L1"@, "L2"@, "fit"@, "optional_flag"@
        ][i],
        FamilySchema::Mountings => seq!["family"@, "size"@, "mounting_code"@, "pivoted"@, "notes"@][i],
        FamilySchema::Motors => seq!["poles"@, "hp"@, "kw"@, "n_sync"@, "notes"@][i],
        FamilySchema::Limits => seq!["family"@, "size"@, "overhung"@, "axial"@, "thermal_flag"@][i],
        FamilySchema::Unknown => Seq::empty(),
    }
}

/// Two characters are equal up to ASCII case.
pub open spec fn eq_ignore_case(a: char, b: char) -> bool {
    ||| a == b
    ||| ('A' <= a <= 'Z' && a as u32 + 32 == b as u32)
    ||| ('A' <= b <= 'Z' && b as u32 + 32 == a as u32)
}

/// `n` occurs in `h` at position `i`, up to ASCII case.
pub open spec fn matches_at(h: Seq<char>, n: Seq<char>, i: int) -> bool {
    &&& 0 <= i
    &&& i + n.len() <= h.len()
    &&& forall|k: int| 0 <= k < n.len() ==> eq_ignore_case(#[trigger] h[i + k], n[k])
}

/// `n` is a substring of `h`, up to ASCII case.
pub open spec fn contains_ignore_case(h: Seq<char>, n: Seq<char>) -> bool {
    exists|i: int| matches_at(h, n, i)
}

/// Some cell of the header row holds the keyword.
pub open spec fn keyword_found(header: Seq<String>, kw: Seq<char>) -> bool {
    exists|c: int| 0 <= c < header.len() && contains_ignore_case(#[trigger] header[c]@, kw)
}

/// How many of the first `n` keywords of `f` the header row holds.
pub open spec fn found_upto(header: Seq<String>, f: FamilySchema, n: int) -> nat
    decreases n,
{
    if n <= 0 {
        0
    } else {
        found_upto(header, f, n - 1) + if keyword_found(header, keyword_spec(f, n - 1)) {
            1nat
        } else {
            0nat
        }
    }
}

/// How many keywords of `f` the header row holds.
pub open spec fn keyword_matches(header: Seq<String>, f: FamilySchema) -> nat {
    found_upto(header, f, columns_of(f) as int)
}

/// Confidence in percent that a table with this header row belongs to `f`:
/// one point per keyword found and one for the expected column count, over
/// the points possible.
pub open spec fn score(header: Seq<String>, f: FamilySchema) -> int {
    (keyword_matches(header, f) + if header.len() == columns_of(f) { 1int } else { 0int }) * 100 / (
    columns_of(f) + 1) as int
}

/// `f` wins against `g`: a higher score, then more keywords, then priority.
pub open spec fn beats(header: Seq<String>, f: FamilySchema, g: FamilySchema) -> bool {
    ||| score(header, f) > score(header, g)
    ||| (score(header, f) == score(header, g) && keyword_matches(header, f) > keyword_matches(
        header,
        g,
    ))
    ||| (score(header, f) == score(header, g) && keyword_matches(header, f) == keyword_matches(
        header,
        g,
    ) && priority(f) <= priority(g))
}

fn char_eq_ignore_case(a: char, b: char) -> (r: bool)
    ensures
        r == eq_ignore_case(a, b),
{
    a == b || ('A' <= a && a <= 'Z' && a as u32 + 32 == b as u32) || ('A' <= b && b <= 'Z' && b as u32
        + 32 == a as u32)
}

/// Whether `n` is a substring of `h`, up to ASCII case.
pub fn find_ignore_case(h: &Vec<char>, n: &Vec<char>) -> (r: bool)
    ensures
        r == contains_ignore_case(h@, n@),
{
    if n.len() > h.len() {
        assert forall|i: int| !matches_at(h@, n@, i) by {}
        return false;
    }
    let mut i: usize = 0;
    while i <= h.len() - n.len()
        invariant
            n.len() <= h.len(),
            i <= h.len() - n.len() + 1,
            forall|p: int| 0 <= p < i ==> !matches_at(h@, n@, p),
        decreases h.len() - i,
    {
        let mut k: usize = 0;
        let mut ok = true;
        while k < n.len() && ok
            invariant
                i + n.len() <= h.len(),
                k <= n.len(),
                ok ==> forall|q: int| 0 <= q < k ==> eq_ignore_case(#[trigger] h@[i + q], n@[q]),
                !ok ==> !matches_at(h@, n@, i as int),
            decreases n.len() - k, if ok { 1int } else { 0int },
        {
            if char_eq_ignore_case(h[i + k], n[k]) {
                k = k + 1;
            } else {
                ok = false;
            }
        }
        if ok {
            assert(matches_at(h@, n@, i as int));
            return true;
        }
        i = i + 1;
    }
    assert forall|p: int| !matches_at(h@, n@, p) by {
        if 0 <= p < i {
        }
    }
    false
}

/// Whether some cell of the header row holds the keyword, up to ASCII case.
fn header_has(header: &Vec<String>, kw: &str) -> (r: bool)
    ensures
        r == keyword_found(header@, kw@),
{
    let n = chars_of(kw);
    let mut c: usize = 0;
    while c < header.len()
        invariant
            c <= header.len(),
            n@ == kw@,
            forall|d: int| 0 <= d < c ==> !contains_ignore_case(#[trigger] header@[d]@, kw@),
        decreases header.len() - c,
    {
        let h = chars_of(header[c].as_str());
        if find_ignore_case(&h, &n) {
            return true;
        }
        c = c + 1;
    }
    false
}

/// How many keywords of `f` the header row holds.
pub fn count_keyword_matches(header: &Vec<String>, f: FamilySchema) -> (r: u64)
    ensures
        r == keyword_matches(header@, f),
        r <= columns_of(f),
{
    let kws = keywords(f);
    let mut n: u64 = 0;
    let mut i: usize = 0;
    while i < kws.len()
        invariant
            kws@.len() == columns_of(f),
            forall|j: int| 0 <= j < kws@.len() ==> (#[trigger] kws@[j])@ == keyword_spec(f, j),
            i <= kws.len(),
            n == found_upto(header@, f, i as int),
            n <= i,
        decreases kws.len() - i,
    {
        if header_has(header, kws[i]) {
            n = n + 1;
        }
        i = i + 1;
    }
    n
}

/// The score of `f` for a header row, in percent.
pub fn score_family(header: &Vec<String>, f: FamilySchema) -> (r: (u64, u64))
    ensures
        r.0 == score(header@, f),
        r.1 == keyword_matches(header@, f),
        r.0 <= 100,
{
    let m = count_keyword_matches(header, f);
    let cols: u64 = keywords(f).len() as u64;
    let bonus: u64 = if header.len() as u64 == cols { 1 } else { 0 };
    assert((m + bonus) * 100 / (cols + 1) <= 100) by (nonlinear_arith)
        requires m + bonus <= cols + 1;
    ((m + bonus) * 100 / (cols + 1), m)
}

/// The family at position `i` beats every known family.
pub open spec fn wins(header: Seq<String>, i: int) -> bool {
    &&& 0 <= i < 6
    &&& forall|j: int| 0 <= j < 6 ==> #[trigger] beats(header, family_at(i), family_at(j))
}

/// The known family at a priority position.
pub fn family_at_position(i: usize) -> (r: FamilySchema)
    ensures
        r == family_at(i as int),
{
    match i {
        0 => FamilySchema::Sizes,
        1 => FamilySchema::Ratios,
        2 => FamilySchema::Shafts,
        3 => FamilySchema::Mountings,
        4 => FamilySchema::Motors,
        5 => FamilySchema::Limits,
        _ => FamilySchema::Unknown,
    }
}

/// The family a header row is classified as, with the confidence in percent:
/// the known family that beats all others, when its score reaches
/// `MIN_CONFIDENCE`, and `Unknown` with the best score otherwise.
pub fn select_family(header: &Vec<String>) -> (r: (FamilySchema, u64))
    ensures
        r.1 <= 100,
        exists|i: int| #[trigger] wins(header@, i) && r.1 == score(header@, family_at(i)) && (if r.1
            >= MIN_CONFIDENCE {
                r.0 == family_at(i)
            } else {
                r.0 == FamilySchema::Unknown
            }),
{
    let mut bi: usize = 0;
    let (mut bs, mut bm) = score_family(header, FamilySchema::Sizes);
    let mut i: usize = 1;
    while i < 6
        invariant
            1 <= i <= 6,
            bi < i,
            bs == score(header@, family_at(bi as int)),
            bm == keyword_matches(header@, family_at(bi as int)),
            bs <= 100,
            forall|j: int| 0 <= j < i ==> #[trigger] beats(header@, family_at(bi as int), family_at(j)),
        decreases 6 - i,
    {
        let g = family_at_position(i);
        let (gs, gm) = score_family(header, g);
        if gs > bs || (gs == bs && gm > bm) {
            assert forall|j: int| 0 <= j < i + 1 implies #[trigger] beats(header@, g, family_at(j)) by {
                if j < i {
                    assert(beats(header@, family_at(bi as int), family_at(j)));
                }
            }
            bi = i;
            bs = gs;
            bm = gm;
        }
        i = i + 1;
    }
    let best = family_at_position(bi);
    assert(wins(header@, bi as int));
    if bs >= MIN_CONFIDENCE {
        (best, bs)
    } else {
        (FamilySchema::Unknown, bs)
    }
}

/// A table row tagged with the family of its table and its origin.
pub struct ClassifiedRow {
    pub family: FamilySchema,
    pub page: u32,
    pub table_id: u64,
    pub row_index: u64,
    pub cells: Vec<String>,
}

/// The record of one classification decision.
pub struct ProvenanceRecord {
    pub page: u32,
    pub table_id: u64,
    pub family: FamilySchema,
    /// Confidence in percent, at most 100.
    pub confidence: u64,
    /// Number of rows the decision emitted.
    pub rows: u64,
    pub notes: String,
}

/// The header row of a table: its first row, or nothing for a table without rows.
pub open spec fn header_of(rows: Seq<Vec<String>>) -> Seq<String> {
    if rows.len() > 0 {
        rows[0]@
    } else {
        Seq::empty()
    }
}

/// Index of the first data row: the header row is skipped for a known family,
/// while an `Unknown` table keeps all its rows for manual inspection.
pub open spec fn first_data_row(f: FamilySchema, n_rows: int) -> int {
    if f != FamilySchema::Unknown && n_rows > 0 {
        1
    } else {
        0
    }
}

/// The title of the last anchor on or before `page`, or nothing.
pub open spec fn preceding_title(anchors: Seq<SectionAnchor>, page: u32) -> Seq<char>
    decreases anchors.len(),
{
    if anchors.len() == 0 {
        Seq::empty()
    } else if anchors.last().page <= page {
        anchors.last().title@
    } else {
        preceding_title(anchors.drop_last(), page)
    }
}

/// The title of the nearest anchor on or before `page`; anchors are in reading order.
pub fn nearest_title(anchors: &Vec<SectionAnchor>, page: u32) -> (r: String)
    ensures
        r@ == preceding_title(anchors@, page),
{
    let mut i: usize = anchors.len();
    assert(anchors@.take(i as int) =~= anchors@);
    while i > 0
        invariant
            i <= anchors.len(),
            preceding_title(anchors@, page) == preceding_title(anchors@.take(i as int), page),
        decreases i,
    {
        let ghost pre = anchors@.take(i as int);
        assert(pre.drop_last() =~= anchors@.take(i - 1));
        if anchors[i - 1].page <= page {
            return copy_string(&anchors[i - 1].title);
        }
        i = i - 1;
    }
    String::new()
}

/// `rows` and `rec` are the classification of `table`: the family chosen from
/// its header row, its data rows tagged with that family, and the record of
/// the decision.
pub open spec fn classify_result(
    table: Table,
    table_id: u64,
    anchors: Seq<SectionAnchor>,
    rows: Seq<ClassifiedRow>,
    rec: ProvenanceRecord,
) -> bool {
    let start = first_data_row(rec.family, table.rows.len() as int);
    &&& rows.len() == table.rows.len() - start
    &&& forall|i: int|
        0 <= i < rows.len() ==> (#[trigger] rows[i]).family == rec.family && rows[i].page
            == table.page && rows[i].table_id == table_id && rows[i].row_index == start + i
            && same_texts(rows[i].cells@, table.rows@[start + i]@)
    &&& rec.page == table.page
    &&& rec.table_id == table_id
    &&& rec.confidence <= 100
    &&& rec.rows == rows.len()
    &&& rec.notes@ == preceding_title(anchors, table.page)
    &&& exists|w: int| #[trigger] wins(header_of(table.rows@), w)
        && rec.confidence == score(header_of(table.rows@), family_at(w))
        && (if rec.confidence >= MIN_CONFIDENCE {
            rec.family == family_at(w)
        } else {
            rec.family == FamilySchema::Unknown
        })
}

/// Classifies a table: its header row selects the family (see `select_family`),
/// its data rows come out tagged with that family in their order, and one
/// provenance record notes the decision with the nearest preceding section title.
pub fn classify(table: &Table, table_id: u64, anchors: &Vec<SectionAnchor>) -> (r: (
    Vec<ClassifiedRow>,
    ProvenanceRecord,
))
    ensures
        classify_result(*table, table_id, anchors@, r.0@, r.1),
{
    let empty: Vec<String> = Vec::new();
    let header = if table.rows.len() > 0 { &table.rows[0] } else { &empty };
    assert(header@ == header_of(table.rows@));
    let (family, confidence) = select_family(header);
    let start: usize = if family != FamilySchema::Unknown && table.rows.len() > 0 { 1 } else { 0 };
    let mut rows: Vec<ClassifiedRow> = Vec::new();
    let mut i: usize = start;
    while i < table.rows.len()
        invariant
            start <= i <= table.rows.len(),
            start == first_data_row(family, table.rows.len() as int),
            rows.len() == i - start,
            forall|k: int|
                0 <= k < rows.len() ==> (#[trigger] rows[k]).family == family && rows[k].page
                    == table.page && rows[k].table_id == table_id && rows[k].row_index == start + k
                    && same_texts(rows[k].cells@, table.rows@[start + k]@),
        decreases table.rows.len() - i,
    {
        let cells = copy_row(&table.rows[i]);
        rows.push(ClassifiedRow { family, page: table.page, table_id, row_index: i as u64, cells });
        i = i + 1;
    }
    let notes = nearest_title(anchors, table.page);
    let n = rows.len() as u64;
    (rows, ProvenanceRecord { page: table.page, table_id, family, confidence, rows: n, notes })
}

} // verus!
