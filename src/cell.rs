//! Cell text: the spans whose center lies in a cell, read left to right, then
//! top to bottom.
//!
//! Spans are ordered by their left edge, then by their top edge; spans with
//! both edges equal keep the page's span order. Their texts are joined by
//! single spaces, and a cell without spans is empty.
use vstd::prelude::*;
use crate::grid::{boundaries_of, cluster_boundaries, in_coordinate_range};
use crate::model::TextSpan;
use crate::text::{copy_string, push_char, texts};

verus! {

/// A cell of a grid: the half-open rectangle `[xa, xb) x [ya, yb)`.
#[derive(Clone, Copy, PartialEq, Eq, Structural, Debug)]
pub struct CellBox {
    pub xa: i64,
    pub xb: i64,
    pub ya: i64,
    pub yb: i64,
}

/// The cell's corners are page coordinates.
pub open spec fn box_in_range(c: CellBox) -> bool {
    in_coordinate_range(seq![c.xa, c.xb, c.ya, c.yb])
}

/// The center of the span lies in the cell.
pub open spec fn center_in(s: TextSpan, c: CellBox) -> bool {
    &&& 2 * c.xa <= s.x0 + s.x1 < 2 * c.xb
    &&& 2 * c.ya <= s.y0 + s.y1 < 2 * c.yb
}

/// Left edges of the spans among the first `n` that lie in the cell.
pub open spec fn left_edges(s: Seq<TextSpan>, c: CellBox, n: int) -> Seq<i64>
    decreases n,
{
    if n <= 0 {
        Seq::empty()
    } else if center_in(s[n - 1], c) {
        left_edges(s, c, n - 1).push(s[n - 1].x0 as i64)
    } else {
        left_edges(s, c, n - 1)
    }
}

/// Top edges of the spans among the first `n` that lie in the cell with left edge `x`.
pub open spec fn top_edges_at(s: Seq<TextSpan>, c: CellBox, x: i64, n: int) -> Seq<i64>
    decreases n,
{
    if n <= 0 {
        Seq::empty()
    } else if center_in(s[n - 1], c) && s[n - 1].x0 == x {
        top_edges_at(s, c, x, n - 1).push(s[n - 1].y0 as i64)
    } else {
        top_edges_at(s, c, x, n - 1)
    }
}

/// Texts of the spans among the first `n` that lie in the cell with left edge
/// `x` and top edge `y`, in span order.
pub open spec fn texts_at(s: Seq<TextSpan>, c: CellBox, x: i64, y: i64, n: int) -> Seq<Seq<char>>
    decreases n,
{
    if n <= 0 {
        Seq::empty()
    } else if center_in(s[n - 1], c) && s[n - 1].x0 == x && s[n - 1].y0 == y {
        texts_at(s, c, x, y, n - 1).push(s[n - 1].text@)
    } else {
        texts_at(s, c, x, y, n - 1)
    }
}

/// Texts with left edge `x`, top edge by top edge along `ys`.
pub open spec fn texts_down(s: Seq<TextSpan>, c: CellBox, x: i64, ys: Seq<i64>) -> Seq<Seq<char>>
    decreases ys.len(),
{
    if ys.len() == 0 {
        Seq::empty()
    } else {
        texts_down(s, c, x, ys.drop_last()) + texts_at(s, c, x, ys.last(), s.len() as int)
    }
}

/// Texts with left edge `x`, top to bottom.
pub open spec fn texts_at_left(s: Seq<TextSpan>, c: CellBox, x: i64) -> Seq<Seq<char>> {
    texts_down(s, c, x, boundaries_of(top_edges_at(s, c, x, s.len() as int), 0))
}

/// Texts left edge by left edge along `xs`.
pub open spec fn texts_across(s: Seq<TextSpan>, c: CellBox, xs: Seq<i64>) -> Seq<Seq<char>>
    decreases xs.len(),
{
    if xs.len() == 0 {
        Seq::empty()
    } else {
        texts_across(s, c, xs.drop_last()) + texts_at_left(s, c, xs.last())
    }
}

/// The texts of the spans in the cell, left to right, then top to bottom.
pub open spec fn cell_parts(s: Seq<TextSpan>, c: CellBox) -> Seq<Seq<char>> {
    texts_across(s, c, boundaries_of(left_edges(s, c, s.len() as int), 0))
}

/// Texts joined by single spaces.
pub open spec fn join_with_spaces(p: Seq<Seq<char>>) -> Seq<char>
    decreases p.len(),
{
    if p.len() == 0 {
        Seq::empty()
    } else if p.len() == 1 {
        p[0]
    } else {
        join_with_spaces(p.drop_last()) + seq![' '] + p.last()
    }
}

/// The text of a cell.
pub open spec fn cell_spec(s: Seq<TextSpan>, c: CellBox) -> Seq<char> {
    join_with_spaces(cell_parts(s, c))
}

proof fn lemma_edges_in_range(s: Seq<TextSpan>, c: CellBox, x: i64, n: int)
    ensures
        in_coordinate_range(left_edges(s, c, n)),
        in_coordinate_range(top_edges_at(s, c, x, n)),
    decreases n,
{
    if n > 0 {
        lemma_edges_in_range(s, c, x, n - 1);
    }
}

fn span_in_cell(s: &TextSpan, c: CellBox) -> (r: bool)
    requires
        box_in_range(c),
    ensures
        r == center_in(*s, c),
{
    assert(i32::MIN <= seq![c.xa, c.xb, c.ya, c.yb][0] <= i32::MAX);
    assert(i32::MIN <= seq![c.xa, c.xb, c.ya, c.yb][1] <= i32::MAX);
    assert(i32::MIN <= seq![c.xa, c.xb, c.ya, c.yb][2] <= i32::MAX);
    assert(i32::MIN <= seq![c.xa, c.xb, c.ya, c.yb][3] <= i32::MAX);
    let cx = s.x0 as i64 + s.x1 as i64;
    let cy = s.y0 as i64 + s.y1 as i64;
    2 * c.xa <= cx && cx < 2 * c.xb && 2 * c.ya <= cy && cy < 2 * c.yb
}

fn left_edges_of(spans: &Vec<TextSpan>, c: CellBox) -> (r: Vec<i64>)
    requires
        box_in_range(c),
    ensures
        r@ == left_edges(spans@, c, spans.len() as int),
{
    let mut r: Vec<i64> = Vec::new();
    let mut i: usize = 0;
    while i < spans.len()
        invariant
            i <= spans.len(),
            box_in_range(c),
            r@ == left_edges(spans@, c, i as int),
        decreases spans.len() - i,
    {
        if span_in_cell(&spans[i], c) {
            r.push(spans[i].x0 as i64);
        }
        i = i + 1;
    }
    r
}

fn top_edges_of(spans: &Vec<TextSpan>, c: CellBox, x: i64) -> (r: Vec<i64>)
    requires
        box_in_range(c),
    ensures
        r@ == top_edges_at(spans@, c, x, spans.len() as int),
{
    let mut r: Vec<i64> = Vec::new();
    let mut i: usize = 0;
    while i < spans.len()
        invariant
            i <= spans.len(),
            box_in_range(c),
            r@ == top_edges_at(spans@, c, x, i as int),
        decreases spans.len() - i,
    {
        if span_in_cell(&spans[i], c) && spans[i].x0 as i64 == x {
            r.push(spans[i].y0 as i64);
        }
        i = i + 1;
    }
    r
}

fn texts_at_edges(spans: &Vec<TextSpan>, c: CellBox, x: i64, y: i64) -> (r: Vec<String>)
    requires
        box_in_range(c),
    ensures
        texts(r@) == texts_at(spans@, c, x, y, spans.len() as int),
{
    let mut r: Vec<String> = Vec::new();
    let mut i: usize = 0;
    while i < spans.len()
        invariant
            i <= spans.len(),
            box_in_range(c),
            texts(r@) == texts_at(spans@, c, x, y, i as int),
        decreases spans.len() - i,
    {
        if span_in_cell(&spans[i], c) && spans[i].x0 as i64 == x && spans[i].y0 as i64 == y {
            let ghost before = r@;
            r.push(copy_string(&spans[i].text));
            assert(texts(r@) =~= texts(before).push(spans@[i as int].text@));
        }
        i = i + 1;
    }
    r
}

fn texts_with_left_edge(spans: &Vec<TextSpan>, c: CellBox, x: i64) -> (r: Vec<String>)
    requires
        box_in_range(c),
    ensures
        texts(r@) == texts_at_left(spans@, c, x),
{
    let tops = top_edges_of(spans, c, x);
    proof { lemma_edges_in_range(spans@, c, x, spans.len() as int); }
    let ys = cluster_boundaries(&tops, 0);
    let mut r: Vec<String> = Vec::new();
    let mut k: usize = 0;
    assert(texts(r@) =~= Seq::<Seq<char>>::empty());
    while k < ys.len()
        invariant
            k <= ys.len(),
            box_in_range(c),
            texts(r@) == texts_down(spans@, c, x, ys@.take(k as int)),
        decreases ys.len() - k,
    {
        let ghost before = r@;
        let mut more = texts_at_edges(spans, c, x, ys[k]);
        let ghost added = more@;
        r.append(&mut more);
        proof {
            assert(r@ == before + added);
            assert(texts(r@) =~= texts(before) + texts(added));
            let nk = ys@.take(k as int + 1);
            assert(nk.drop_last() =~= ys@.take(k as int));
            assert(nk.last() == ys@[k as int]);
        }
        k = k + 1;
    }
    assert(ys@.take(ys.len() as int) =~= ys@);
    r
}

/// The texts of the spans in the cell, left to right, then top to bottom.
pub fn ordered_cell_parts(spans: &Vec<TextSpan>, c: CellBox) -> (r: Vec<String>)
    requires
        box_in_range(c),
    ensures
        texts(r@) == cell_parts(spans@, c),
{
    let lefts = left_edges_of(spans, c);
    proof { lemma_edges_in_range(spans@, c, 0, spans.len() as int); }
    let xs = cluster_boundaries(&lefts, 0);
    let mut r: Vec<String> = Vec::new();
    let mut k: usize = 0;
    assert(texts(r@) =~= Seq::<Seq<char>>::empty());
    while k < xs.len()
        invariant
            k <= xs.len(),
            box_in_range(c),
            texts(r@) == texts_across(spans@, c, xs@.take(k as int)),
        decreases xs.len() - k,
    {
        let ghost before = r@;
        let mut more = texts_with_left_edge(spans, c, xs[k]);
        let ghost added = more@;
        r.append(&mut more);
        proof {
            assert(r@ == before + added);
            assert(texts(r@) =~= texts(before) + texts(added));
            let nk = xs@.take(k as int + 1);
            assert(nk.drop_last() =~= xs@.take(k as int));
            assert(nk.last() == xs@[k as int]);
        }
        k = k + 1;
    }
    assert(xs@.take(xs.len() as int) =~= xs@);
    r
}

/// Text of a cell: the texts of the spans centered in it, left to right, then
/// top to bottom, joined by single spaces.
pub fn cell_text(spans: &Vec<TextSpan>, c: CellBox) -> (r: String)
    requires
        box_in_range(c),
    ensures
        r@ == cell_spec(spans@, c),
{
    let parts = ordered_cell_parts(spans, c);
    let ghost p = texts(parts@);
    let mut out = String::new();
    let mut i: usize = 0;
    while i < parts.len()
        invariant
            i <= parts.len(),
            p == texts(parts@),
            out@ == join_with_spaces(p.take(i as int)),
        decreases parts.len() - i,
    {
        let ghost prev = p.take(i as int);
        if i > 0 {
            push_char(&mut out, ' ');
        }
        out.append(parts[i].as_str());
        proof {
            let next = p.take(i as int + 1);
            assert(next.drop_last() =~= prev);
            assert(next.last() == parts@[i as int]@);
            if i == 0 {
                assert(out@ =~= join_with_spaces(next));
            } else {
                assert(out@ =~= join_with_spaces(prev) + seq![' '] + next.last());
            }
        }
        i = i + 1;
    }
    assert(p.take(parts.len() as int) =~= p);
    out
}

} // verus!
