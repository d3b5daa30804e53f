//! The run of one document: pages are handed in one at a time, in page order;
//! the run can be cancelled at any point, and yields a pack only when every
//! page was processed and it was not cancelled.
use vstd::prelude::*;
use crate::classify::{
    ClassifiedRow, FamilySchema, ProvenanceRecord, classify, classify_result, family_at,
};
use crate::grid::{Table, detects_grid, extract_simple_tables, extraction_result, page_has_grid};
use crate::model::Page;
use crate::pack::{
    Pack, assemble, in_extraction_order, is_family_set, key_le, known_count,
    lemma_family_rows_ordered, rows_of,
};
use crate::section::SectionAnchor;

verus! {

/// Provenance note of a grid that was found but yielded no table.
pub const SKIPPED_GRID_NOTE: &'static str = "grid skipped: single cell or disconnected ruling";

/// Progress of a run, as reported to a caller that polls it.
#[derive(Clone, Copy, PartialEq, Eq, Structural, Debug)]
pub struct Progress {
    pub pages_done: u64,
    pub pages_total: u64,
    pub tables_found: u64,
}

/// Decisions that found a table of a known family with at least one row.
/// A table classified as `Unknown` keeps its rows for inspection but is not
/// counted as parsed.
pub open spec fn parsed_count(recs: Seq<ProvenanceRecord>) -> nat
    decreases recs.len(),
{
    if recs.len() == 0 {
        0
    } else {
        parsed_count(recs.drop_last()) + if recs.last().family != FamilySchema::Unknown
            && recs.last().rows > 0 {
            1nat
        } else {
            0nat
        }
    }
}

/// `rows` and `recs` are the classification of `tables`, one after another,
/// with table ids counting up from `base`.
pub open spec fn page_classified(
    tables: Seq<Table>,
    base: int,
    anchors: Seq<SectionAnchor>,
    rows: Seq<ClassifiedRow>,
    recs: Seq<ProvenanceRecord>,
) -> bool
    decreases tables.len(),
{
    if tables.len() == 0 {
        rows.len() == 0 && recs.len() == 0
    } else {
        let k = rows.len() - recs.last().rows;
        &&& recs.len() == tables.len()
        &&& 0 <= k
        &&& page_classified(tables.drop_last(), base, anchors, rows.take(k), recs.drop_last())
        &&& classify_result(
            tables.last(),
            (base + tables.len() - 1) as u64,
            anchors,
            rows.skip(k),
            recs.last(),
        )
    }
}

/// What one page adds to a run, given its extracted tables `ts`: the
/// classification of each table, or, for a page whose lines form a grid but
/// give no table, one record of the skipped grid.
pub open spec fn page_outcome(
    page: Page,
    ts: Seq<Table>,
    base: int,
    anchors: Seq<SectionAnchor>,
    rows: Seq<ClassifiedRow>,
    recs: Seq<ProvenanceRecord>,
) -> bool {
    if ts.len() > 0 {
        page_classified(ts, base, anchors, rows, recs)
    } else if page_has_grid(page) {
        &&& rows.len() == 0
        &&& recs.len() == 1
        &&& recs[0].page == page.page_number
        &&& recs[0].table_id == base
        &&& recs[0].family == FamilySchema::Unknown
        &&& recs[0].confidence == 0
        &&& recs[0].rows == 0
        &&& recs[0].notes@ == SKIPPED_GRID_NOTE@
    } else {
        rows.len() == 0 && recs.len() == 0
    }
}

proof fn lemma_parsed_count_bound(recs: Seq<ProvenanceRecord>)
    ensures
        parsed_count(recs) <= recs.len(),
    decreases recs.len(),
{
    if recs.len() > 0 {
        lemma_parsed_count_bound(recs.drop_last());
    }
}

proof fn lemma_parsed_count_append(a: Seq<ProvenanceRecord>, b: Seq<ProvenanceRecord>)
    ensures
        parsed_count(a + b) == parsed_count(a) + parsed_count(b),
    decreases b.len(),
{
    if b.len() == 0 {
        assert(a + b =~= a);
    } else {
        lemma_parsed_count_append(a, b.drop_last());
        assert((a + b).drop_last() =~= a + b.drop_last());
    }
}

/// The state of one run.
pub struct Run {
    pages_total: u64,
    pages_done: u64,
    last_page: u32,
    cancelled: bool,
    rows: Vec<ClassifiedRow>,
    provenance: Vec<ProvenanceRecord>,
    tables_found: u64,
    tables_parsed: u64,
}

impl Run {
    pub closed spec fn pages_total(&self) -> u64 {
        self.pages_total
    }

    pub closed spec fn pages_done(&self) -> u64 {
        self.pages_done
    }

    pub closed spec fn last_page(&self) -> u32 {
        self.last_page
    }

    pub closed spec fn is_cancelled(&self) -> bool {
        self.cancelled
    }

    pub closed spec fn tables_found(&self) -> u64 {
        self.tables_found
    }

    pub closed spec fn tables_parsed(&self) -> u64 {
        self.tables_parsed
    }

    /// The provenance records written so far, one per decision, in order.
    pub closed spec fn provenance(&self) -> Seq<ProvenanceRecord> {
        self.provenance@
    }

    /// The classified rows gathered so far.
    pub closed spec fn rows(&self) -> Seq<ClassifiedRow> {
        self.rows@
    }

    /// The run's invariant: counters within bounds and rows in extraction order,
    /// all from pages up to the last one processed.
    pub closed spec fn wf(&self) -> bool {
        &&& self.pages_done <= self.pages_total
        &&& !self.cancelled ==> self.tables_parsed == parsed_count(self.provenance@)
            && self.tables_found == self.provenance@.len()
        &&& self.cancelled ==> self.rows@.len() == 0 && self.provenance@.len() == 0
        &&& in_extraction_order(self.rows@)
        &&& forall|i: int| 0 <= i < self.rows@.len() ==> (#[trigger] self.rows@[i]).page <= self.last_page
        &&& self.pages_done == 0 ==> self.rows@.len() == 0
    }

    /// Whatever pages a run has taken, the rows of every family, which make up
    /// that family's CSV row set, are in (page, table, row) order.
    pub proof fn lemma_family_rows_in_order(&self, f: FamilySchema)
        requires
            self.wf(),
        ensures
            in_extraction_order(rows_of(self.rows(), f)),
    {
        lemma_family_rows_ordered(self.rows@, f);
    }

    /// A run over a document of `pages_total` pages, with nothing processed yet.
    pub fn new(pages_total: u64) -> (r: Run)
        ensures
            r.wf(),
            r.pages_total() == pages_total,
            r.pages_done() == 0,
            r.tables_found() == 0,
            r.tables_parsed() == 0,
            !r.is_cancelled(),
            r.rows().len() == 0,
            r.provenance().len() == 0,
    {
        Run {
            pages_total,
            pages_done: 0,
            last_page: 0,
            cancelled: false,
            rows: Vec::new(),
            provenance: Vec::new(),
            tables_found: 0,
            tables_parsed: 0,
        }
    }

    /// Whether a page can be taken next: the run is live, pages remain, and the
    /// page comes after the last one processed.
    pub open spec fn accepts(&self, page: &Page) -> bool {
        &&& !self.is_cancelled()
        &&& self.pages_done() < self.pages_total()
        &&& (self.pages_done() == 0 || page.page_number > self.last_page())
    }

    /// Processes one page: its tables are extracted and classified in turn,
    /// and their rows and provenance records appended; a page whose lines form
    /// a grid that gives no table adds one record of the skipped grid. Returns
    /// whether the page was taken. A page is refused when the run does not
    /// accept it, or when its tables would overflow the table counter; a
    /// refused page leaves the run as it was.
    pub fn add_page(&mut self, page: &Page, anchors: &Vec<SectionAnchor>) -> (taken: bool)
        requires
            old(self).wf(),
        ensures
            final(self).wf(),
            taken ==> old(self).accepts(page),
            old(self).accepts(page) && !taken ==> exists|ts: Seq<Table>|
                extraction_result(*page, ts) && old(self).tables_found() + #[trigger] ts.len() + 1 > u64::MAX,
            !taken ==> *final(self) == *old(self),
            taken ==> final(self).pages_done() == old(self).pages_done() + 1
                && final(self).pages_total() == old(self).pages_total()
                && final(self).last_page() == page.page_number
                && !final(self).is_cancelled()
                && final(self).rows().take(old(self).rows().len() as int) == old(self).rows()
                && final(self).provenance().take(old(self).provenance().len() as int) == old(self).provenance()
                && final(self).tables_found() == final(self).provenance().len()
                && final(self).tables_parsed() == old(self).tables_parsed() + parsed_count(
                    final(self).provenance().skip(old(self).provenance().len() as int),
                ),
            taken ==> exists|ts: Seq<Table>|
                extraction_result(*page, ts) && #[trigger] page_outcome(
                    *page,
                    ts,
                    old(self).tables_found() as int,
                    anchors@,
                    final(self).rows().skip(old(self).rows().len() as int),
                    final(self).provenance().skip(old(self).provenance().len() as int),
                ),
    {
        if self.cancelled || self.pages_done >= self.pages_total || (self.pages_done > 0
            && page.page_number <= self.last_page) {
            return false;
        }
        let tables = extract_simple_tables(page);
        if tables.len() as u64 >= u64::MAX - self.tables_found {
            return false;
        }
        let ghost old_rows = self.rows@;
        let ghost old_prov = self.provenance@;
        let base = self.tables_found;
        let mut parsed: u64 = 0;
        let mut t: usize = 0;
        while t < tables.len()
            invariant
                t <= tables.len(),
                base == old(self).tables_found,
                base + tables.len() < u64::MAX,
                parsed <= t,
                parsed == parsed_count(self.provenance@.skip(old_prov.len() as int)),
                forall|k: int| 0 <= k < tables.len() ==> (#[trigger] tables[k]).page == page.page_number,
                self.rows@.len() >= old_rows.len(),
                self.rows@.take(old_rows.len() as int) == old_rows,
                self.provenance@.len() == old_prov.len() + t,
                self.provenance@.take(old_prov.len() as int) == old_prov,
                page_classified(
                    tables@.take(t as int),
                    base as int,
                    anchors@,
                    self.rows@.skip(old_rows.len() as int),
                    self.provenance@.skip(old_prov.len() as int),
                ),
                forall|i: int| old_rows.len() <= i < self.rows@.len() ==> (#[trigger] self.rows@[i]).page
                    == page.page_number && self.rows@[i].table_id < base + t,
                forall|i: int, j: int| old_rows.len() <= i < j < self.rows@.len() ==> key_le(
                    #[trigger] self.rows@[i],
                    #[trigger] self.rows@[j],
                ),
                self.pages_done == old(self).pages_done,
                self.pages_total == old(self).pages_total,
                self.tables_found == old(self).tables_found,
                self.tables_parsed == old(self).tables_parsed,
                self.last_page == old(self).last_page,
                self.cancelled == old(self).cancelled,
                self.pages_done < self.pages_total,
                old(self).wf(),
                old(self).rows@ == old_rows,
                old(self).provenance@ == old_prov,
            decreases tables.len() - t,
        {
            let id = base + t as u64;
            let (mut new_rows, record) = classify(&tables[t], id, anchors);
            let ghost before = self.rows@;
            let ghost before_prov = self.provenance@;
            let ghost added = new_rows@;
            let ghost rec = record;
            if record.family != FamilySchema::Unknown && record.rows > 0 {
                parsed = parsed + 1;
            }
            self.rows.append(&mut new_rows);
            self.provenance.push(record);
            proof {
                assert(self.rows@ == before + added);
                let k = before.len() - old_rows.len();
                let nr = self.rows@.skip(old_rows.len() as int);
                let np = self.provenance@.skip(old_prov.len() as int);
                let tt = tables@.take(t as int + 1);
                assert(tt.drop_last() =~= tables@.take(t as int));
                assert(tt.last() == tables@[t as int]);
                assert(nr.take(k) =~= before.skip(old_rows.len() as int));
                assert(nr.skip(k) =~= added);
                assert(np.drop_last() =~= before_prov.skip(old_prov.len() as int));
                assert(np.last() == rec);
                assert(parsed == parsed_count(np));
                assert(page_classified(
                    tables@.take(t as int),
                    base as int,
                    anchors@,
                    before.skip(old_rows.len() as int),
                    before_prov.skip(old_prov.len() as int),
                ));
                assert(page_classified(tt.drop_last(), base as int, anchors@, nr.take(k), np.drop_last()));
                assert(classify_result(tables@[t as int], id, anchors@, added, rec));
                assert(id == (base + tt.len() - 1) as u64);
                assert(classify_result(tt.last(), (base + tt.len() - 1) as u64, anchors@, nr.skip(k), np.last()));
                assert(np.len() == tt.len());
                assert(0 <= k <= nr.len());
                assert(tt.len() > 0);
                assert(rec.rows == added.len());
                assert(nr.len() - np.last().rows == k);
                assert(page_classified(tt, base as int, anchors@, nr, np));
                assert(self.rows@.take(old_rows.len() as int) =~= old_rows) by {
                    assert(before.take(old_rows.len() as int) == old_rows);
                }
                assert(self.provenance@.take(old_prov.len() as int) =~= old_prov) by {
                    assert(before_prov.take(old_prov.len() as int) == old_prov);
                }
                assert forall|i: int, j: int| old_rows.len() <= i < j < self.rows@.len() implies key_le(
                    #[trigger] self.rows@[i],
                    #[trigger] self.rows@[j],
                ) by {
                    if j < before.len() {
                        assert(self.rows@[i] == before[i] && self.rows@[j] == before[j]);
                    } else if i < before.len() {
                        assert(self.rows@[i] == before[i]);
                        assert(self.rows@[j] == added[j - before.len()]);
                    } else {
                        assert(self.rows@[i] == added[i - before.len()]);
                        assert(self.rows@[j] == added[j - before.len()]);
                    }
                }
                assert forall|i: int| old_rows.len() <= i < self.rows@.len() implies (#[trigger] self.rows@[i]).page
                    == page.page_number && self.rows@[i].table_id < base + t + 1 by {
                    if i < before.len() {
                        assert(self.rows@[i] == before[i]);
                    } else {
                        assert(self.rows@[i] == added[i - before.len()]);
                    }
                }
            }
            t = t + 1;
        }
        if tables.len() == 0 && detects_grid(page) {
            self.provenance.push(
                ProvenanceRecord {
                    page: page.page_number,
                    table_id: base,
                    family: FamilySchema::Unknown,
                    confidence: 0,
                    rows: 0,
                    notes: String::from_str(SKIPPED_GRID_NOTE),
                },
            );
            assert(self.provenance@.take(old_prov.len() as int) =~= old_prov);
            assert(self.provenance@.skip(old_prov.len() as int) =~= seq![self.provenance@.last()]);
            assert(seq![self.provenance@.last()].drop_last() =~= Seq::<ProvenanceRecord>::empty());
        }
        let ghost np = self.provenance@.skip(old_prov.len() as int);
        proof {
            assert(tables@.take(tables.len() as int) =~= tables@);
            assert(self.provenance@ =~= old_prov + np);
            lemma_parsed_count_append(old_prov, np);
            lemma_parsed_count_bound(self.provenance@);
            if tables.len() == 0 {
                assert(np.len() == 0 ==> page_classified(tables@, base as int, anchors@, self.rows@.skip(old_rows.len() as int), np));
            }
        }
        self.tables_found = self.provenance.len() as u64;
        self.tables_parsed = self.tables_parsed + parsed;
        self.pages_done = self.pages_done + 1;
        self.last_page = page.page_number;
        assert forall|i: int, j: int| 0 <= i < j < self.rows@.len() implies key_le(
            #[trigger] self.rows@[i],
            #[trigger] self.rows@[j],
        ) by {
            if j < old_rows.len() {
                assert(self.rows@.take(old_rows.len() as int)[i] == old_rows[i]);
                assert(self.rows@.take(old_rows.len() as int)[j] == old_rows[j]);
            } else if i < old_rows.len() {
                assert(self.rows@.take(old_rows.len() as int)[i] == old_rows[i]);
                assert(old_rows[i].page <= old(self).last_page);
            }
        }
        assert forall|i: int| 0 <= i < self.rows@.len() implies (#[trigger] self.rows@[i]).page <= self.last_page by {
            if i < old_rows.len() {
                assert(self.rows@.take(old_rows.len() as int)[i] == old_rows[i]);
                assert(old_rows[i].page <= old(self).last_page);
            }
        }
        assert(page_outcome(
            *page,
            tables@,
            old(self).tables_found() as int,
            anchors@,
            self.rows().skip(old(self).rows().len() as int),
            self.provenance().skip(old(self).provenance().len() as int),
        ));
        true
    }

    /// Abandons the run: rows gathered so far are dropped and no pack will be produced.
    pub fn cancel(&mut self)
        requires
            old(self).wf(),
        ensures
            final(self).wf(),
            final(self).is_cancelled(),
            final(self).pages_done() == old(self).pages_done(),
            final(self).pages_total() == old(self).pages_total(),
            final(self).tables_found() == old(self).tables_found(),
            final(self).rows().len() == 0,
            final(self).provenance().len() == 0,
    {
        self.cancelled = true;
        self.rows = Vec::new();
        self.provenance = Vec::new();
    }

    /// Pages done, pages in all, and tables found so far.
    pub fn progress(&self) -> (r: Progress)
        ensures
            r.pages_done == self.pages_done(),
            r.pages_total == self.pages_total(),
            r.tables_found == self.tables_found(),
    {
        Progress { pages_done: self.pages_done, pages_total: self.pages_total, tables_found: self.tables_found }
    }

    /// Whether the run was cancelled.
    pub fn cancelled(&self) -> (r: bool)
        ensures
            r == self.is_cancelled(),
    {
        self.cancelled
    }

    /// The pack of a complete run: `None` when the run was cancelled or pages
    /// remain; otherwise the family row sets of the gathered rows, with the
    /// run's counters.
    pub fn finish(self) -> (r: Option<Pack>)
        requires
            self.wf(),
        ensures
            r is Some <==> !self.is_cancelled() && self.pages_done() == self.pages_total(),
            r matches Some(p) ==> {
                &&& p.family_rows.len() == 6
                &&& forall|i: int| 0 <= i < 6 ==> is_family_set(#[trigger] p.family_rows@[i]@, self.rows(), family_at(i))
                &&& p.coverage.rows_emitted == known_count(self.rows())
                &&& p.coverage.tables_found == self.tables_found()
                &&& p.coverage.tables_parsed == self.tables_parsed()
                &&& p.provenance@ == self.provenance()
                &&& in_extraction_order(self.rows())
            },
    {
        if self.cancelled || self.pages_done != self.pages_total {
            return None;
        }
        Some(assemble(&self.rows, self.provenance, self.tables_found, self.tables_parsed))
    }
}

} // verus!
