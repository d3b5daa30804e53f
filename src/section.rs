//! Section index: heading-like spans of a document, in reading order.
//!
//! A span is a heading when its font is larger than the page's body font by
//! more than `HEADING_RATIO_PERCENT`, and it starts its line. The body font is
//! the lower median of the font sizes on the page.
use vstd::prelude::*;
use crate::grid::{boundaries_of, boundaries_ok, cluster_boundaries, in_coordinate_range};
use crate::model::{Page, TextSpan};
use crate::text::copy_string;

verus! {

/// A heading found in the document: its page, its text and its height on the page.
pub struct SectionAnchor {
    pub page: u32,
    pub title: String,
    pub y_position: i32,
}

/// How much larger than the body font a heading's font must be, in percent.
pub const HEADING_RATIO_PERCENT: u64 = 120;

/// How many spans have a font size of at most `v`.
pub open spec fn count_le(s: Seq<TextSpan>, v: u32) -> nat
    decreases s.len(),
{
    if s.len() == 0 {
        0
    } else {
        count_le(s.drop_last(), v) + if s.last().font_size <= v {
            1nat
        } else {
            0nat
        }
    }
}

/// At least half of the spans, rounding the middle down, have a font size of at most `v`.
pub open spec fn covers_half(s: Seq<TextSpan>, v: u32) -> bool {
    count_le(s, v) > (s.len() - 1) / 2
}

/// `v` is the lower median of the spans' font sizes: the smallest size that
/// covers half of the spans.
pub open spec fn is_body_size(s: Seq<TextSpan>, v: u32) -> bool {
    &&& exists|k: int| 0 <= k < s.len() && #[trigger] s[k].font_size == v
    &&& covers_half(s, v)
    &&& forall|k: int| 0 <= k < s.len() && covers_half(s, #[trigger] s[k].font_size) ==> v <= s[k].font_size
}

/// The body font size of a page's spans.
pub open spec fn body_size(s: Seq<TextSpan>) -> u32 {
    choose|v: u32| is_body_size(s, v)
}

/// No other span on the same line lies to the left of span `k`.
pub open spec fn starts_line(s: Seq<TextSpan>, k: int) -> bool {
    forall|m: int| 0 <= m < s.len() ==> !(#[trigger] s[m].y0 == s[k].y0 && s[m].x0 < s[k].x0)
}

/// Span `k` is a heading candidate for body size `body`.
pub open spec fn is_heading(s: Seq<TextSpan>, k: int, body: u32) -> bool {
    &&& s[k].font_size as int * 100 > body as int * HEADING_RATIO_PERCENT as int
    &&& starts_line(s, k)
}

/// The heights of the headings among the first `n` spans.
pub open spec fn heading_ys(s: Seq<TextSpan>, body: u32, n: int) -> Seq<i64>
    decreases n,
{
    if n <= 0 {
        Seq::empty()
    } else if is_heading(s, n - 1, body) {
        heading_ys(s, body, n - 1).push(s[n - 1].y0 as i64)
    } else {
        heading_ys(s, body, n - 1)
    }
}

/// Indices of the headings among the first `n` spans that stand at height `y`.
pub open spec fn headings_at(s: Seq<TextSpan>, body: u32, y: i64, n: int) -> Seq<int>
    decreases n,
{
    if n <= 0 {
        Seq::empty()
    } else if is_heading(s, n - 1, body) && s[n - 1].y0 == y {
        headings_at(s, body, y, n - 1).push(n - 1)
    } else {
        headings_at(s, body, y, n - 1)
    }
}

/// Indices of the headings at each height of `ys`, height by height.
pub open spec fn headings_by_height(s: Seq<TextSpan>, body: u32, ys: Seq<i64>) -> Seq<int>
    decreases ys.len(),
{
    if ys.len() == 0 {
        Seq::empty()
    } else {
        headings_by_height(s, body, ys.drop_last()) + headings_at(s, body, ys.last(), s.len() as int)
    }
}

/// Indices of a page's headings, top to bottom by height, in span order at equal height.
pub open spec fn page_headings(s: Seq<TextSpan>) -> Seq<int> {
    let body = body_size(s);
    headings_by_height(s, body, boundaries_of(heading_ys(s, body, s.len() as int), 0))
}

/// The anchor stands for span `k` of page `p`.
pub open spec fn anchor_of(a: SectionAnchor, p: Page, k: int) -> bool {
    &&& 0 <= k < p.text_spans@.len()
    &&& a.page == p.page_number
    &&& a.title@ == p.text_spans@[k].text@
    &&& a.y_position == p.text_spans@[k].y0
}

proof fn lemma_count_le_all(s: Seq<TextSpan>, v: u32)
    requires
        forall|k: int| 0 <= k < s.len() ==> #[trigger] s[k].font_size <= v,
    ensures
        count_le(s, v) == s.len(),
    decreases s.len(),
{
    if s.len() > 0 {
        lemma_count_le_all(s.drop_last(), v);
    }
}

proof fn lemma_body_size_unique(s: Seq<TextSpan>, v: u32)
    requires
        is_body_size(s, v),
    ensures
        body_size(s) == v,
{
    let w = body_size(s);
    let kv = choose|k: int| 0 <= k < s.len() && #[trigger] s[k].font_size == v;
    let kw = choose|k: int| 0 <= k < s.len() && #[trigger] s[k].font_size == w;
    assert(w <= s[kv].font_size);
    assert(v <= s[kw].font_size);
}

/// How many spans have a font size of at most `v`.
fn count_at_most(spans: &Vec<TextSpan>, v: u32) -> (r: usize)
    ensures
        r == count_le(spans@, v),
{
    let mut n: usize = 0;
    let mut i: usize = 0;
    while i < spans.len()
        invariant
            i <= spans.len(),
            n == count_le(spans@.take(i as int), v),
            n <= i,
        decreases spans.len() - i,
    {
        assert(spans@.take(i as int + 1).drop_last() =~= spans@.take(i as int));
        if spans[i].font_size <= v {
            n = n + 1;
        }
        i = i + 1;
    }
    assert(spans@.take(spans.len() as int) =~= spans@);
    n
}

/// The body font size of a non-empty page: the lower median of its font sizes.
pub fn body_font_size(spans: &Vec<TextSpan>) -> (r: u32)
    requires
        spans.len() > 0,
    ensures
        is_body_size(spans@, r),
        r == body_size(spans@),
{
    let mut top: u32 = spans[0].font_size;
    let mut ti: usize = 0;
    let mut i: usize = 1;
    while i < spans.len()
        invariant
            1 <= i <= spans.len(),
            ti < spans.len(),
            top == spans[ti as int].font_size,
            forall|k: int| 0 <= k < i ==> #[trigger] spans[k].font_size <= top,
        decreases spans.len() - i,
    {
        if spans[i].font_size > top {
            top = spans[i].font_size;
            ti = i;
        }
        i = i + 1;
    }
    proof { lemma_count_le_all(spans@, top); }
    let half = (spans.len() - 1) / 2;
    let mut best: u32 = top;
    let mut bi: usize = ti;
    let mut j: usize = 0;
    while j < spans.len()
        invariant
            j <= spans.len(),
            half == (spans.len() - 1) / 2,
            bi < spans.len(),
            best == spans[bi as int].font_size,
            covers_half(spans@, best),
            forall|k: int| 0 <= k < j && covers_half(spans@, #[trigger] spans[k].font_size) ==> best <= spans[k].font_size,
        decreases spans.len() - j,
    {
        let c = count_at_most(spans, spans[j].font_size);
        if c > half && spans[j].font_size < best {
            best = spans[j].font_size;
            bi = j;
        }
        j = j + 1;
    }
    proof {
        assert(spans[bi as int].font_size == best);
        lemma_body_size_unique(spans@, best);
    }
    best
}

/// Whether span `k` starts its line.
fn starts_its_line(spans: &Vec<TextSpan>, k: usize) -> (r: bool)
    requires
        k < spans.len(),
    ensures
        r == starts_line(spans@, k as int),
{
    let mut m: usize = 0;
    while m < spans.len()
        invariant
            m <= spans.len(),
            k < spans.len(),
            forall|q: int| 0 <= q < m ==> !(#[trigger] spans@[q].y0 == spans@[k as int].y0 && spans@[q].x0
                < spans@[k as int].x0),
        decreases spans.len() - m,
    {
        if spans[m].y0 == spans[k].y0 && spans[m].x0 < spans[k].x0 {
            return false;
        }
        m = m + 1;
    }
    true
}

/// Whether span `k` is a heading for body size `body`.
fn heading_at(spans: &Vec<TextSpan>, k: usize, body: u32) -> (r: bool)
    requires
        k < spans.len(),
    ensures
        r == is_heading(spans@, k as int, body),
{
    (spans[k].font_size as u64) * 100 > (body as u64) * HEADING_RATIO_PERCENT && starts_its_line(spans, k)
}

proof fn lemma_heading_ys_in_range(s: Seq<TextSpan>, body: u32, n: int)
    ensures
        in_coordinate_range(heading_ys(s, body, n)),
    decreases n,
{
    if n > 0 {
        lemma_heading_ys_in_range(s, body, n - 1);
    }
}

/// The heights of the page's headings, in span order.
fn heading_heights(spans: &Vec<TextSpan>, body: u32) -> (r: Vec<i64>)
    ensures
        r@ == heading_ys(spans@, body, spans.len() as int),
{
    let mut r: Vec<i64> = Vec::new();
    let mut i: usize = 0;
    while i < spans.len()
        invariant
            i <= spans.len(),
            r@ == heading_ys(spans@, body, i as int),
        decreases spans.len() - i,
    {
        if heading_at(spans, i, body) {
            r.push(spans[i].y0 as i64);
        }
        i = i + 1;
    }
    r
}

/// The anchors of the page's headings at height `y`, in span order.
fn anchors_at_height(page: &Page, body: u32, y: i64) -> (r: Vec<SectionAnchor>)
    ensures
        r.len() == headings_at(page.text_spans@, body, y, page.text_spans@.len() as int).len(),
        forall|i: int| 0 <= i < r.len() ==> anchor_of(
            #[trigger] r[i],
            *page,
            headings_at(page.text_spans@, body, y, page.text_spans@.len() as int)[i],
        ),
{
    let spans = &page.text_spans;
    let mut out: Vec<SectionAnchor> = Vec::new();
    let mut k: usize = 0;
    while k < spans.len()
        invariant
            k <= spans.len(),
            spans == &page.text_spans,
            out.len() == headings_at(spans@, body, y, k as int).len(),
            forall|i: int| 0 <= i < out.len() ==> anchor_of(#[trigger] out[i], *page, headings_at(spans@, body, y, k as int)[i]),
        decreases spans.len() - k,
    {
        let ghost prev = headings_at(spans@, body, y, k as int);
        if heading_at(spans, k, body) && spans[k].y0 as i64 == y {
            let a = SectionAnchor {
                page: page.page_number,
                title: copy_string(&spans[k].text),
                y_position: spans[k].y0,
            };
            out.push(a);
            assert(headings_at(spans@, body, y, k as int + 1) == prev.push(k as int));
        } else {
            assert(headings_at(spans@, body, y, k as int + 1) == prev);
        }
        k = k + 1;
    }
    out
}

proof fn lemma_no_spans_no_headings(s: Seq<TextSpan>)
    requires
        s.len() == 0,
    ensures
        page_headings(s).len() == 0,
{
    let body = body_size(s);
    let hy = heading_ys(s, body, 0);
    assert(hy =~= Seq::<i64>::empty());
    let b = boundaries_of(hy, 0);
    assert(boundaries_ok(hy, 0, Seq::<i64>::empty()));
    crate::grid::lemma_boundaries_unique(hy, 0, b, Seq::<i64>::empty());
}

/// The anchors of one page, top to bottom.
#[verifier::rlimit(80)]
pub fn page_index(page: &Page) -> (r: Vec<SectionAnchor>)
    ensures
        r.len() == page_headings(page.text_spans@).len(),
        forall|i: int| 0 <= i < r.len() ==> anchor_of(#[trigger] r[i], *page, page_headings(page.text_spans@)[i]),
{
    let spans = &page.text_spans;
    let mut out: Vec<SectionAnchor> = Vec::new();
    if spans.len() == 0 {
        proof { lemma_no_spans_no_headings(spans@); }
        return out;
    }
    let body = body_font_size(spans);
    let hs = heading_heights(spans, body);
    proof { lemma_heading_ys_in_range(spans@, body, spans.len() as int); }
    let ys = cluster_boundaries(&hs, 0);
    let ghost total = headings_by_height(spans@, body, ys@);
    let mut b: usize = 0;
    while b < ys.len()
        invariant
            b <= ys.len(),
            spans == &page.text_spans,
            body == body_size(spans@),
            out.len() == headings_by_height(spans@, body, ys@.take(b as int)).len(),
            forall|i: int| 0 <= i < out.len() ==> anchor_of(#[trigger] out[i], *page, headings_by_height(spans@, body, ys@.take(b as int))[i]),
        decreases ys.len() - b,
    {
        let ghost before = headings_by_height(spans@, body, ys@.take(b as int));
        let ghost old_out = out@;
        let mut level = anchors_at_height(page, body, ys[b]);
        let ghost added = level@;
        out.append(&mut level);
        proof {
            let hat = headings_at(spans@, body, ys@[b as int], spans.len() as int);
            assert(out@ == old_out + added);
            assert(old_out.len() == before.len());
            let nb = ys@.take(b as int + 1);
            assert(nb.drop_last() =~= ys@.take(b as int));
            assert(nb.last() == ys@[b as int]);
            assert(headings_by_height(spans@, body, nb) == before + hat);
            assert forall|i: int| 0 <= i < out.len() implies anchor_of(#[trigger] out[i], *page, (before + hat)[i]) by {
                if i < old_out.len() {
                    assert(out[i] == old_out[i]);
                } else {
                    assert(out[i] == added[i - old_out.len()]);
                }
            }
        }
        b = b + 1;
    }
    assert(ys@.take(ys.len() as int) =~= ys@);
    out
}

/// Indices `(page, span)` of the document's headings, page by page.
pub open spec fn document_headings(doc: Seq<Page>) -> Seq<(int, int)>
    decreases doc.len(),
{
    if doc.len() == 0 {
        Seq::empty()
    } else {
        let p = doc.len() - 1;
        document_headings(doc.drop_last()) + page_headings(doc.last().text_spans@).map_values(
            |k: int| (p, k),
        )
    }
}

/// The section index of a document: for each page in order, its headings top
/// to bottom (see `page_headings`). A document without headings gives an empty index.
pub fn build_index(doc: &Vec<Page>) -> (r: Vec<SectionAnchor>)
    ensures
        r.len() == document_headings(doc@).len(),
        forall|i: int| 0 <= i < r.len() ==> anchor_of(
            #[trigger] r[i],
            doc@[document_headings(doc@)[i].0],
            document_headings(doc@)[i].1,
        ),
{
    let mut out: Vec<SectionAnchor> = Vec::new();
    let mut p: usize = 0;
    while p < doc.len()
        invariant
            p <= doc.len(),
            out.len() == document_headings(doc@.take(p as int)).len(),
            forall|i: int| 0 <= i < out.len() ==> anchor_of(
                #[trigger] out[i],
                doc@[document_headings(doc@.take(p as int))[i].0],
                document_headings(doc@.take(p as int))[i].1,
            ),
            forall|i: int| 0 <= i < out.len() ==> 0 <= #[trigger] document_headings(doc@.take(p as int))[i].0 < p,
        decreases doc.len() - p,
    {
        let ghost before = document_headings(doc@.take(p as int));
        let ghost ph = page_headings(doc@[p as int].text_spans@);
        let mut anchors = page_index(&doc[p]);
        let ghost added = anchors@;
        let ghost old_out = out@;
        out.append(&mut anchors);
        proof {
            let next = doc@.take(p as int + 1);
            assert(next.drop_last() =~= doc@.take(p as int));
            assert(next.last() == doc@[p as int]);
            let dh = document_headings(next);
            assert(dh =~= before + ph.map_values(|k: int| (p as int, k)));
            assert forall|i: int| 0 <= i < out.len() implies anchor_of(
                #[trigger] out[i],
                doc@[dh[i].0],
                dh[i].1,
            ) && 0 <= dh[i].0 < p + 1 by {
                if i < old_out.len() {
                    assert(out[i] == old_out[i]);
                } else {
                    assert(out[i] == added[i - old_out.len()]);
                }
            }
        }
        p = p + 1;
    }
    assert(doc@.take(doc.len() as int) =~= doc@);
    out
}

} // verus!
