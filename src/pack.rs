//! Pack assembly: classified rows are gathered into one CSV row set per
//! family, in the order extraction produced them, with the run's coverage.
use vstd::prelude::*;
use crate::classify::{
    ClassifiedRow, FamilySchema, ProvenanceRecord, columns_of, family_at, family_at_position,
    keywords,
};
use crate::csv::{csv_text, lines_spec};
use crate::text::{copy_string, texts};

verus! {

/// Counters of one run.
#[derive(Clone, Copy, PartialEq, Eq, Structural, Debug)]
pub struct CoverageStats {
    /// Grids detected over all pages.
    pub tables_found: u64,
    /// Grids that yielded at least one classified row.
    pub tables_parsed: u64,
    /// Rows written to the family files (`Unknown` rows excluded).
    pub rows_emitted: u64,
}

/// The rows of family `f`, in their order.
pub open spec fn rows_of(rows: Seq<ClassifiedRow>, f: FamilySchema) -> Seq<ClassifiedRow>
    decreases rows.len(),
{
    if rows.len() == 0 {
        Seq::empty()
    } else if rows.last().family == f {
        rows_of(rows.drop_last(), f).push(rows.last())
    } else {
        rows_of(rows.drop_last(), f)
    }
}

/// How many rows are of a known family.
pub open spec fn known_count(rows: Seq<ClassifiedRow>) -> nat
    decreases rows.len(),
{
    if rows.len() == 0 {
        0
    } else {
        known_count(rows.drop_last()) + if rows.last().family != FamilySchema::Unknown {
            1nat
        } else {
            0nat
        }
    }
}

/// Cell `j` of a row fitted to its family's width: missing cells are empty.
pub open spec fn fitted_cell(cells: Seq<String>, j: int) -> Seq<char> {
    if j < cells.len() {
        cells[j]@
    } else {
        Seq::empty()
    }
}

/// `out` is the CSV row set of family `f`: one row per row of that family, in
/// order, each with exactly the family's columns.
pub open spec fn is_family_set(out: Seq<Vec<String>>, rows: Seq<ClassifiedRow>, f: FamilySchema) -> bool {
    let mine = rows_of(rows, f);
    &&& out.len() == mine.len()
    &&& forall|i: int| 0 <= i < out.len() ==> (#[trigger] out[i])@.len() == columns_of(f)
    &&& forall|i: int, j: int|
        0 <= i < out.len() && 0 <= j < columns_of(f) ==> (#[trigger] out[i]@[j])@ == fitted_cell(
            mine[i].cells@,
            j,
        )
}

/// Row keys in extraction order: page, then table, then row within the table.
pub open spec fn key_le(a: ClassifiedRow, b: ClassifiedRow) -> bool {
    ||| a.page < b.page
    ||| (a.page == b.page && a.table_id < b.table_id)
    ||| (a.page == b.page && a.table_id == b.table_id && a.row_index <= b.row_index)
}

/// Rows appear in non-decreasing (page, table, row) order.
pub open spec fn in_extraction_order(rows: Seq<ClassifiedRow>) -> bool {
    forall|i: int, j: int| 0 <= i < j < rows.len() ==> key_le(#[trigger] rows[i], #[trigger] rows[j])
}

proof fn lemma_rows_of_from(rows: Seq<ClassifiedRow>, f: FamilySchema, k: int)
    requires
        0 <= k < rows_of(rows, f).len(),
    ensures
        exists|i: int| 0 <= i < rows.len() && rows[i] == rows_of(rows, f)[k]
            && rows_of(rows.take(i), f).len() == k,
    decreases rows.len(),
{
    let pre = rows.drop_last();
    assert(rows.take(rows.len() - 1) =~= pre);
    if rows.last().family == f && k == rows_of(rows, f).len() - 1 {
        assert(rows[rows.len() - 1] == rows_of(rows, f)[k]);
    } else {
        lemma_rows_of_from(pre, f, k);
        let i = choose|i: int| 0 <= i < pre.len() && pre[i] == rows_of(pre, f)[k]
            && rows_of(pre.take(i), f).len() == k;
        assert(pre.take(i) =~= rows.take(i));
        assert(rows[i] == rows_of(rows, f)[k]);
    }
}

proof fn lemma_rows_of_len_monotone(rows: Seq<ClassifiedRow>, f: FamilySchema, a: int, b: int)
    requires
        0 <= a <= b <= rows.len(),
    ensures
        rows_of(rows.take(a), f).len() <= rows_of(rows.take(b), f).len(),
        a < b && rows[a].family == f ==> rows_of(rows.take(a), f).len() < rows_of(rows.take(b), f).len(),
    decreases b - a,
{
    if a < b {
        lemma_rows_of_len_monotone(rows, f, a, b - 1);
        assert(rows.take(b).drop_last() =~= rows.take(b - 1));
        if a == b - 1 {
        }
    }
}

/// The rows of each family keep extraction order: when the classified rows
/// are in (page, table, row) order, so is every family's row set.
pub proof fn lemma_family_rows_ordered(rows: Seq<ClassifiedRow>, f: FamilySchema)
    requires
        in_extraction_order(rows),
    ensures
        in_extraction_order(rows_of(rows, f)),
{
    let out = rows_of(rows, f);
    assert forall|p: int, q: int| 0 <= p < q < out.len() implies key_le(#[trigger] out[p], #[trigger] out[q]) by {
        lemma_rows_of_from(rows, f, p);
        lemma_rows_of_from(rows, f, q);
        let i = choose|i: int| 0 <= i < rows.len() && rows[i] == out[p] && rows_of(rows.take(i), f).len() == p;
        let j = choose|j: int| 0 <= j < rows.len() && rows[j] == out[q] && rows_of(rows.take(j), f).len() == q;
        assert(out[p].family == f) by { lemma_rows_of_family(rows, f); }
        if j <= i {
            lemma_rows_of_len_monotone(rows, f, j, i);
        }
        assert(i < j);
    }
}

proof fn lemma_rows_of_family(rows: Seq<ClassifiedRow>, f: FamilySchema)
    ensures
        forall|k: int| 0 <= k < rows_of(rows, f).len() ==> (#[trigger] rows_of(rows, f)[k]).family == f,
    decreases rows.len(),
{
    if rows.len() > 0 {
        lemma_rows_of_family(rows.drop_last(), f);
    }
}

/// Rows of the six known families together.
pub open spec fn family_total(rows: Seq<ClassifiedRow>) -> nat {
    rows_of(rows, FamilySchema::Sizes).len() + rows_of(rows, FamilySchema::Ratios).len() + rows_of(
        rows,
        FamilySchema::Shafts,
    ).len() + rows_of(rows, FamilySchema::Mountings).len() + rows_of(rows, FamilySchema::Motors).len()
        + rows_of(rows, FamilySchema::Limits).len()
}

/// Every row that is not `Unknown` goes to exactly one family's row set, so
/// the rows of the six family sets together are the known rows.
pub proof fn lemma_coverage_consistent(rows: Seq<ClassifiedRow>)
    ensures
        family_total(rows) == known_count(rows),
    decreases rows.len(),
{
    if rows.len() > 0 {
        lemma_coverage_consistent(rows.drop_last());
    }
}

proof fn lemma_known_count_bound(rows: Seq<ClassifiedRow>)
    ensures
        known_count(rows) <= rows.len(),
    decreases rows.len(),
{
    if rows.len() > 0 {
        lemma_known_count_bound(rows.drop_last());
    }
}

/// The CSV row set of family `f`: its rows in order, fitted to its columns.
pub fn family_set(rows: &Vec<ClassifiedRow>, f: FamilySchema) -> (r: Vec<Vec<String>>)
    ensures
        is_family_set(r@, rows@, f),
{
    let width = keywords(f).len();
    let mut out: Vec<Vec<String>> = Vec::new();
    let mut i: usize = 0;
    while i < rows.len()
        invariant
            i <= rows.len(),
            width == columns_of(f),
            is_family_set(out@, rows@.take(i as int), f),
        decreases rows.len() - i,
    {
        let ghost pre = rows@.take(i as int);
        assert(rows@.take(i as int + 1).drop_last() =~= pre);
        if rows[i].family == f {
            let cells = &rows[i].cells;
            let mut row: Vec<String> = Vec::new();
            let mut j: usize = 0;
            while j < width
                invariant
                    j <= width,
                    row.len() == j,
                    forall|k: int| 0 <= k < j ==> (#[trigger] row@[k])@ == fitted_cell(cells@, k),
                decreases width - j,
            {
                if j < cells.len() {
                    row.push(copy_string(&cells[j]));
                } else {
                    row.push(String::new());
                }
                j = j + 1;
            }
            out.push(row);
            assert(rows@.take(i as int + 1).last() == rows@[i as int]);
        }
        i = i + 1;
    }
    assert(rows@.take(rows.len() as int) =~= rows@);
    out
}

/// The output of one run: a CSV row set per known family (in priority order),
/// the provenance log and the coverage counters.
pub struct Pack {
    pub family_rows: Vec<Vec<Vec<String>>>,
    pub provenance: Vec<ProvenanceRecord>,
    pub coverage: CoverageStats,
}

/// Gathers the classified rows into the six family row sets and completes the
/// coverage with the number of rows emitted.
pub fn assemble(
    rows: &Vec<ClassifiedRow>,
    provenance: Vec<ProvenanceRecord>,
    tables_found: u64,
    tables_parsed: u64,
) -> (r: Pack)
    ensures
        r.family_rows.len() == 6,
        forall|i: int| 0 <= i < 6 ==> is_family_set(#[trigger] r.family_rows@[i]@, rows@, family_at(i)),
        r.coverage.rows_emitted == known_count(rows@),
        r.coverage.rows_emitted == family_total(rows@),
        r.coverage.tables_found == tables_found,
        r.coverage.tables_parsed == tables_parsed,
        r.provenance@ == provenance@,
{
    let mut sets: Vec<Vec<Vec<String>>> = Vec::new();
    let mut total: usize = 0;
    let mut i: usize = 0;
    proof {
        lemma_coverage_consistent(rows@);
        lemma_known_count_bound(rows@);
    }
    while i < 6
        invariant
            i <= 6,
            sets.len() == i,
            forall|k: int| 0 <= k < i ==> is_family_set(#[trigger] sets@[k]@, rows@, family_at(k)),
            total == (if i > 0 { rows_of(rows@, FamilySchema::Sizes).len() } else { 0 }) + (if i > 1 {
                rows_of(rows@, FamilySchema::Ratios).len()
            } else {
                0
            }) + (if i > 2 { rows_of(rows@, FamilySchema::Shafts).len() } else { 0 }) + (if i > 3 {
                rows_of(rows@, FamilySchema::Mountings).len()
            } else {
                0
            }) + (if i > 4 { rows_of(rows@, FamilySchema::Motors).len() } else { 0 }) + (if i > 5 {
                rows_of(rows@, FamilySchema::Limits).len()
            } else {
                0
            }),
            family_total(rows@) == known_count(rows@),
            known_count(rows@) <= rows.len(),
        decreases 6 - i,
    {
        let set = family_set(rows, family_at_position(i));
        total = total + set.len();
        sets.push(set);
        i = i + 1;
    }
    Pack {
        family_rows: sets,
        provenance,
        coverage: CoverageStats { tables_found, tables_parsed, rows_emitted: total as u64 },
    }
}

/// File name of a family's CSV file under the pack's data directory.
pub fn family_file_name(f: FamilySchema) -> (r: &'static str)
    ensures
        r@ == file_name_spec(f),
{
    match f {
        FamilySchema::Sizes => "sizes.csv",
        FamilySchema::Ratios => "ratios.csv",
        FamilySchema::Shafts => "shafts.csv",
        FamilySchema::Mountings => "mountings.csv",
        FamilySchema::Motors => "motors.csv",
        FamilySchema::Limits => "limits.csv",
        FamilySchema::Unknown => "unknown.csv",
    }
}

pub open spec fn file_name_spec(f: FamilySchema) -> Seq<char> {
    match f {
        FamilySchema::Sizes => "sizes.csv"@,
        FamilySchema::Ratios => "ratios.csv"@,
        FamilySchema::Shafts => "shafts.csv"@,
        FamilySchema::Mountings => "mountings.csv"@,
        FamilySchema::Motors => "motors.csv"@,
        FamilySchema::Limits => "limits.csv"@,
        FamilySchema::Unknown => "unknown.csv"@,
    }
}

/// The header line of a family's CSV file.
pub fn family_header(f: FamilySchema) -> (r: &'static str)
    ensures
        r@ == header_spec(f),
{
    match f {
        FamilySchema::Sizes => "family,size,mamax\n",
        FamilySchema::Ratios => "family,stage,i,admissible,notes\n",
        FamilySchema::Shafts => "family,size,style,D,D1,D2,L1,L2,fit,optional_flag\n",
        FamilySchema::Mountings => "family,size,mounting_code,pivoted,notes\n",
        FamilySchema::Motors => "poles,hp,kw,n_sync,notes\n",
        FamilySchema::Limits => "family,size,overhung,axial,thermal_flag\n",
        FamilySchema::Unknown => "\n",
    }
}

pub open spec fn header_spec(f: FamilySchema) -> Seq<char> {
    match f {
        FamilySchema::Sizes => "family,size,mamax\n"@,
        FamilySchema::Ratios => "family,stage,i,admissible,notes\n"@,
        FamilySchema::Shafts => "family,size,style,D,D1,D2,L1,L2,fit,optional_flag\n"@,
        FamilySchema::Mountings => "family,size,mounting_code,pivoted,notes\n"@,
        FamilySchema::Motors => "poles,hp,kw,n_sync,notes\n"@,
        FamilySchema::Limits => "family,size,overhung,axial,thermal_flag\n"@,
        FamilySchema::Unknown => "\n"@,
    }
}

/// Name of the file that lists the families.
pub const FAMILIES_FILE: &'static str = "families.csv";

/// Header line of the file that lists the families.
pub const FAMILIES_HEADER: &'static str = "family\n";

/// The text of the CSV file of the family at priority position `i`: its header
/// line, then one line per row of its row set. A family without rows still gets
/// its header line.
pub fn family_file_text(pack: &Pack, i: usize) -> (r: String)
    requires
        i < 6,
        pack.family_rows.len() == 6,
    ensures
        r@ == header_spec(family_at(i as int)) + lines_spec(pack.family_rows@[i as int]@),
{
    let f = family_at_position(i);
    csv_text(family_header(f), &pack.family_rows[i])
}

/// The first cell of each row, in order.
pub open spec fn first_cells(rows: Seq<Vec<String>>) -> Seq<Seq<char>> {
    Seq::new(rows.len(), |i: int| fitted_cell(rows[i]@, 0))
}

/// `acc` with `name` added at the end unless it is already listed.
pub open spec fn add_name(acc: Seq<Seq<char>>, name: Seq<char>) -> Seq<Seq<char>> {
    if acc.contains(name) {
        acc
    } else {
        acc.push(name)
    }
}

/// `acc` followed by the names of `s` that are new, in order of first appearance.
pub open spec fn add_names(acc: Seq<Seq<char>>, s: Seq<Seq<char>>) -> Seq<Seq<char>>
    decreases s.len(),
{
    if s.len() == 0 {
        acc
    } else {
        add_name(add_names(acc, s.drop_last()), s.last())
    }
}

/// The family column of the row sets that have one (all but the motors),
/// in priority order.
pub open spec fn family_column(sets: Seq<Vec<Vec<String>>>) -> Seq<Seq<char>> {
    first_cells(sets[0]@) + first_cells(sets[1]@) + first_cells(sets[2]@) + first_cells(sets[3]@)
        + first_cells(sets[5]@)
}

proof fn lemma_add_names_append(acc: Seq<Seq<char>>, a: Seq<Seq<char>>, b: Seq<Seq<char>>)
    ensures
        add_names(acc, a + b) == add_names(add_names(acc, a), b),
    decreases b.len(),
{
    if b.len() == 0 {
        assert(a + b =~= a);
    } else {
        lemma_add_names_append(acc, a, b.drop_last());
        assert((a + b).drop_last() =~= a + b.drop_last());
    }
}

/// Appends to `names` the first cells of `rows` that it does not list yet.
fn add_first_cells(names: &mut Vec<String>, rows: &Vec<Vec<String>>)
    ensures
        texts(final(names)@) == add_names(texts(old(names)@), first_cells(rows@)),
{
    let ghost start = texts(names@);
    let mut i: usize = 0;
    while i < rows.len()
        invariant
            i <= rows.len(),
            texts(names@) == add_names(start, first_cells(rows@).take(i as int)),
        decreases rows.len() - i,
    {
        let name = if rows[i].len() > 0 { copy_string(&rows[i][0]) } else { String::new() };
        let ghost before = texts(names@);
        let mut seen = false;
        let mut k: usize = 0;
        while k < names.len()
            invariant
                k <= names.len(),
                before == texts(names@),
                seen <==> exists|q: int| 0 <= q < k && before[q] == name@,
            decreases names.len() - k,
        {
            assert(before[k as int] == names@[k as int]@);
            if names[k] == name {
                seen = true;
            }
            k = k + 1;
        }
        proof {
            let fc = first_cells(rows@);
            assert(fc.take(i as int + 1).drop_last() =~= fc.take(i as int));
            assert(fc[i as int] == name@);
            if seen {
                let q = choose|q: int| 0 <= q < k && before[q] == name@;
                assert(before.contains(name@));
            } else {
                assert(!before.contains(name@));
            }
        }
        if !seen {
            names.push(name);
            assert(texts(names@) =~= before.push(name@));
        }
        i = i + 1;
    }
    assert(first_cells(rows@).take(rows.len() as int) =~= first_cells(rows@));
}

/// The rows of the families file: each family name from the family column of
/// the row sets, once, in order of first appearance.
pub fn family_names(pack: &Pack) -> (r: Vec<Vec<String>>)
    requires
        pack.family_rows.len() == 6,
    ensures
        r.len() == add_names(Seq::empty(), family_column(pack.family_rows@)).len(),
        forall|i: int| 0 <= i < r.len() ==> texts(#[trigger] r@[i]@) == seq![add_names(Seq::empty(), family_column(pack.family_rows@))[i]],
{
    let mut names: Vec<String> = Vec::new();
    let sets = &pack.family_rows;
    assert(texts(names@) =~= Seq::<Seq<char>>::empty());
    add_first_cells(&mut names, &sets[0]);
    add_first_cells(&mut names, &sets[1]);
    add_first_cells(&mut names, &sets[2]);
    add_first_cells(&mut names, &sets[3]);
    add_first_cells(&mut names, &sets[5]);
    proof {
        let e = Seq::<Seq<char>>::empty();
        let f0 = first_cells(sets@[0]@);
        let f1 = first_cells(sets@[1]@);
        let f2 = first_cells(sets@[2]@);
        let f3 = first_cells(sets@[3]@);
        let f5 = first_cells(sets@[5]@);
        lemma_add_names_append(e, f0, f1);
        lemma_add_names_append(e, f0 + f1, f2);
        lemma_add_names_append(e, f0 + f1 + f2, f3);
        lemma_add_names_append(e, f0 + f1 + f2 + f3, f5);
    }
    let mut out: Vec<Vec<String>> = Vec::new();
    let mut i: usize = 0;
    while i < names.len()
        invariant
            i <= names.len(),
            out.len() == i,
            forall|j: int| 0 <= j < i ==> texts(#[trigger] out@[j]@) == seq![texts(names@)[j]],
        decreases names.len() - i,
    {
        let mut row: Vec<String> = Vec::new();
        row.push(copy_string(&names[i]));
        assert(texts(row@) =~= seq![texts(names@)[i as int]]);
        out.push(row);
        i = i + 1;
    }
    out
}

/// The text of the families file: its header line, then one line per family name.
pub fn families_file_text(pack: &Pack) -> (r: String)
    requires
        pack.family_rows.len() == 6,
    ensures
        exists|rows: Seq<Vec<String>>|
            r@ == FAMILIES_HEADER@ + lines_spec(rows) && rows.len() == add_names(
                Seq::empty(),
                family_column(pack.family_rows@),
            ).len() && forall|i: int| 0 <= i < rows.len() ==> texts(#[trigger] rows[i]@) == seq![
                add_names(Seq::empty(), family_column(pack.family_rows@))[i],
            ],
{
    let rows = family_names(pack);
    csv_text(FAMILIES_HEADER, &rows)
}

} // verus!
