//! Ruled-table extraction: ruling lines are clustered into row and column
//! boundaries, and text spans are placed in the cells of the resulting grid.
use vstd::prelude::*;
use crate::cell::{CellBox, box_in_range, cell_spec, cell_text};
use crate::text::same_texts;
use crate::model::{LineSegment, TextSpan, Page, is_horizontal, is_vertical};

verus! {

/// The y positions of the horizontal lines, in the order the lines are listed.
pub open spec fn horizontal_ys(l: Seq<LineSegment>) -> Seq<i64>
    decreases l.len(),
{
    if l.len() == 0 {
        Seq::empty()
    } else if is_horizontal(l.last()) {
        horizontal_ys(l.drop_last()).push(l.last().y0 as i64)
    } else {
        horizontal_ys(l.drop_last())
    }
}

/// The x positions of the vertical lines, in the order the lines are listed.
pub open spec fn vertical_xs(l: Seq<LineSegment>) -> Seq<i64>
    decreases l.len(),
{
    if l.len() == 0 {
        Seq::empty()
    } else if is_vertical(l.last()) {
        vertical_xs(l.drop_last()).push(l.last().x0 as i64)
    } else {
        vertical_xs(l.drop_last())
    }
}

/// `b` are the cluster boundaries of the coordinates `c` under tolerance `eps`:
/// the first is the smallest coordinate, each next one is the smallest
/// coordinate more than `eps` beyond the one before, and every coordinate lies
/// within `eps` of the last boundary at or below it.
pub open spec fn boundaries_ok(c: Seq<i64>, eps: int, b: Seq<i64>) -> bool {
    &&& (b.len() == 0 <==> c.len() == 0)
    &&& forall|k: int| 0 <= k < b.len() ==> c.contains(#[trigger] b[k])
    &&& b.len() > 0 ==> forall|j: int| 0 <= j < c.len() ==> b[0] <= #[trigger] c[j] <= b.last() + eps
    &&& forall|k: int| 0 <= k < b.len() - 1 ==> #[trigger] b[k] + eps < b[k + 1]
    &&& forall|k: int, j: int|
        0 <= k < b.len() - 1 && 0 <= j < c.len() ==> !(#[trigger] b[k] + eps < #[trigger] c[j] < b[k + 1])
}

/// The cluster boundaries of `c` under tolerance `eps` (unique, see
/// `lemma_boundaries_unique`).
pub open spec fn boundaries_of(c: Seq<i64>, eps: int) -> Seq<i64> {
    choose|b: Seq<i64>| boundaries_ok(c, eps, b)
}

/// Boundary detection is deterministic: on the same coordinates and
/// tolerance, any two boundary sequences that meet the definition are equal.
pub proof fn lemma_boundaries_unique(c: Seq<i64>, eps: int, b1: Seq<i64>, b2: Seq<i64>)
    requires
        eps >= 0,
        boundaries_ok(c, eps, b1),
        boundaries_ok(c, eps, b2),
    ensures
        b1 == b2,
{
    if c.len() > 0 {
        let n = if b1.len() < b2.len() { b1.len() } else { b2.len() };
        lemma_boundaries_agree(c, eps, b1, b2, n as int);
        if b1.len() < b2.len() {
            let j = choose|j: int| 0 <= j < c.len() && c[j] == b2[n as int];
            assert(b2[n - 1] + eps < b2[n as int]);
            assert(c[j] <= b1.last() + eps);
        } else if b2.len() < b1.len() {
            let j = choose|j: int| 0 <= j < c.len() && c[j] == b1[n as int];
            assert(b1[n - 1] + eps < b1[n as int]);
            assert(c[j] <= b2.last() + eps);
        }
        assert(b1 =~= b2);
    } else {
        assert(b1 =~= b2);
    }
}

proof fn lemma_boundaries_agree(c: Seq<i64>, eps: int, b1: Seq<i64>, b2: Seq<i64>, k: int)
    requires
        eps >= 0,
        boundaries_ok(c, eps, b1),
        boundaries_ok(c, eps, b2),
        0 <= k <= b1.len(),
        k <= b2.len(),
    ensures
        forall|i: int| 0 <= i < k ==> b1[i] == b2[i],
    decreases k,
{
    if k > 0 {
        lemma_boundaries_agree(c, eps, b1, b2, k - 1);
        let i = k - 1;
        let j1 = choose|j: int| 0 <= j < c.len() && c[j] == b1[i];
        let j2 = choose|j: int| 0 <= j < c.len() && c[j] == b2[i];
        if i == 0 {
            assert(b2[0] <= c[j1]);
            assert(b1[0] <= c[j2]);
        } else {
            assert(b1[i - 1] + eps < b1[i]);
            assert(b2[i - 1] + eps < b2[i]);
            assert(!(b2[i - 1] + eps < c[j1] < b2[i]));
            assert(!(b1[i - 1] + eps < c[j2] < b1[i]));
        }
    }
}

/// The y positions of the page's horizontal lines.
pub fn horizontal_positions(lines: &Vec<LineSegment>) -> (r: Vec<i64>)
    ensures
        r@ == horizontal_ys(lines@),
{
    let mut r: Vec<i64> = Vec::new();
    let mut i: usize = 0;
    while i < lines.len()
        invariant
            i <= lines.len(),
            r@ == horizontal_ys(lines@.take(i as int)),
        decreases lines.len() - i,
    {
        assert(lines@.take(i as int + 1).drop_last() =~= lines@.take(i as int));
        if lines[i].is_horizontal() {
            r.push(lines[i].y0 as i64);
        }
        i = i + 1;
    }
    assert(lines@.take(lines.len() as int) =~= lines@);
    r
}

/// The x positions of the page's vertical lines.
pub fn vertical_positions(lines: &Vec<LineSegment>) -> (r: Vec<i64>)
    ensures
        r@ == vertical_xs(lines@),
{
    let mut r: Vec<i64> = Vec::new();
    let mut i: usize = 0;
    while i < lines.len()
        invariant
            i <= lines.len(),
            r@ == vertical_xs(lines@.take(i as int)),
        decreases lines.len() - i,
    {
        assert(lines@.take(i as int + 1).drop_last() =~= lines@.take(i as int));
        if lines[i].is_vertical() {
            r.push(lines[i].x0 as i64);
        }
        i = i + 1;
    }
    assert(lines@.take(lines.len() as int) =~= lines@);
    r
}

/// The smallest coordinate above `t`, if there is one.
fn min_above(c: &Vec<i64>, t: i64) -> (r: Option<i64>)
    ensures
        r is None ==> forall|j: int| 0 <= j < c.len() ==> c[j] <= t,
        r matches Some(v) ==> v > t && c@.contains(v) && forall|j: int|
            0 <= j < c.len() && c[j] > t ==> v <= c[j],
{
    let mut best: Option<i64> = None;
    let mut i: usize = 0;
    while i < c.len()
        invariant
            i <= c.len(),
            best is None ==> forall|j: int| 0 <= j < i ==> c[j] <= t,
            best matches Some(v) ==> v > t && c@.contains(v) && forall|j: int|
                0 <= j < i && c[j] > t ==> v <= c[j],
        decreases c.len() - i,
    {
        if c[i] > t {
            match best {
                None => {
                    best = Some(c[i]);
                },
                Some(v) => {
                    if c[i] < v {
                        best = Some(c[i]);
                    }
                },
            }
        }
        i = i + 1;
    }
    best
}

/// Clusters coordinates under tolerance `eps` and returns the cluster
/// boundaries, in increasing order.
pub fn cluster_boundaries(c: &Vec<i64>, eps: i64) -> (r: Vec<i64>)
    requires
        0 <= eps <= i32::MAX,
        forall|j: int| 0 <= j < c.len() ==> i32::MIN <= #[trigger] c[j] <= i32::MAX,
    ensures
        boundaries_ok(c@, eps as int, r@),
        r@ == boundaries_of(c@, eps as int),
        in_coordinate_range(r@),
{
    let mut b: Vec<i64> = Vec::new();
    let first = min_above(c, i64::MIN);
    match first {
        None => {
            if c.len() > 0 {
                assert(c[0] <= i64::MIN);
            }
            proof { lemma_boundaries_of(c@, eps as int, b@); }
            return b;
        },
        Some(m) => {
            b.push(m);
            let mut last: i64 = m;
            let mut done = false;
            while !done
                invariant
                    0 <= eps <= i32::MAX,
                    forall|j: int| 0 <= j < c.len() ==> i32::MIN <= #[trigger] c[j] <= i32::MAX,
                    c.len() > 0,
                    b.len() >= 1,
                    last == b@.last(),
                    i32::MIN <= last <= i32::MAX,
                    forall|k: int| 0 <= k < b.len() ==> c@.contains(#[trigger] b[k]),
                    forall|j: int| 0 <= j < c.len() ==> b[0] <= #[trigger] c[j],
                    forall|k: int| 0 <= k < b.len() - 1 ==> #[trigger] b[k] + eps < b[k + 1],
                    forall|k: int, j: int|
                        0 <= k < b.len() - 1 && 0 <= j < c.len() ==> !(#[trigger] b[k] + eps
                            < #[trigger] c[j] < b[k + 1]),
                    done ==> forall|j: int| 0 <= j < c.len() ==> #[trigger] c[j] <= last + eps,
                decreases i32::MAX - last, if done { 0int } else { 1int },
            {
                let t = last + eps;
                match min_above(c, t) {
                    None => {
                        done = true;
                    },
                    Some(v) => {
                        let ghost old_b = b@;
                        b.push(v);
                        assert forall|k: int, j: int|
                            0 <= k < b.len() - 1 && 0 <= j < c.len() implies !(#[trigger] b[k]
                                + eps < #[trigger] c[j] < b[k + 1]) by {
                            if k < b.len() - 2 {
                                assert(b[k] == old_b[k] && b[k + 1] == old_b[k + 1]);
                            }
                        }
                        assert forall|k: int| 0 <= k < b.len() implies c@.contains(#[trigger] b[k]) by {
                            if k < b.len() - 1 {
                                assert(b[k] == old_b[k]);
                            }
                        }
                        last = v;
                        let ghost w = choose|j: int| 0 <= j < c.len() && c[j] == v;
                        assert(c[w] <= i32::MAX);
                    },
                }
            }
            proof { lemma_boundaries_of(c@, eps as int, b@); }
            assert forall|k: int| 0 <= k < b.len() implies i32::MIN <= #[trigger] b[k] <= i32::MAX by {
                let w = choose|j: int| 0 <= j < c.len() && c[j] == b[k];
                assert(i32::MIN <= c[w] <= i32::MAX);
            }
            b
        },
    }
}

proof fn lemma_boundaries_of(c: Seq<i64>, eps: int, b: Seq<i64>)
    requires
        eps >= 0,
        boundaries_ok(c, eps, b),
    ensures
        b == boundaries_of(c, eps),
{
    lemma_boundaries_unique(c, eps, b, boundaries_of(c, eps));
}

/// Tolerance within which horizontal lines count as one row boundary.
pub const ROW_TOLERANCE: i64 = 2;

/// Tolerance within which vertical lines count as one column boundary.
pub const COLUMN_TOLERANCE: i64 = 2;

/// A table extracted from one page: its rows of cell text.
pub struct Table {
    pub page: u32,
    /// The grid's outer rectangle.
    pub bbox: CellBox,
    pub rows: Vec<Vec<String>>,
}

/// All rows of a table have the same number of cells.
pub open spec fn rectangular(rows: Seq<Vec<String>>) -> bool {
    forall|i: int, j: int| 0 <= i < rows.len() && 0 <= j < rows.len() ==> #[trigger] rows[i].len() == #[trigger] rows[j].len()
}

/// The cell in row `i` and column `j` of the grid.
pub open spec fn cell_at(xs: Seq<i64>, ys: Seq<i64>, i: int, j: int) -> CellBox {
    CellBox { xa: xs[j], xb: xs[j + 1], ya: ys[i], yb: ys[i + 1] }
}

/// `rows` holds one row per pair of adjacent row boundaries and one cell per
/// pair of adjacent column boundaries, each with the text of its cell.
pub open spec fn rows_match(rows: Seq<Vec<String>>, spans: Seq<TextSpan>, xs: Seq<i64>, ys: Seq<i64>) -> bool {
    &&& rows.len() == ys.len() - 1
    &&& forall|i: int| 0 <= i < rows.len() ==> #[trigger] rows[i].len() == xs.len() - 1
    &&& forall|i: int, j: int|
        0 <= i < rows.len() && 0 <= j < xs.len() - 1 ==> (#[trigger] rows[i]@[j])@ == cell_spec(
            spans,
            cell_at(xs, ys, i, j),
        )
}

pub open spec fn in_coordinate_range(v: Seq<i64>) -> bool {
    forall|j: int| 0 <= j < v.len() ==> i32::MIN <= #[trigger] v[j] <= i32::MAX
}

/// The rows of the grid with column boundaries `xs` and row boundaries `ys`.
pub fn grid_rows(spans: &Vec<TextSpan>, xs: &Vec<i64>, ys: &Vec<i64>) -> (r: Vec<Vec<String>>)
    requires
        xs.len() >= 1,
        ys.len() >= 1,
        in_coordinate_range(xs@),
        in_coordinate_range(ys@),
    ensures
        rows_match(r@, spans@, xs@, ys@),
        rectangular(r@),
{
    let mut rows: Vec<Vec<String>> = Vec::new();
    let mut i: usize = 0;
    while i + 1 < ys.len()
        invariant
            i + 1 <= ys.len(),
            xs.len() >= 1,
            in_coordinate_range(xs@),
            in_coordinate_range(ys@),
            rows.len() == i,
            forall|a: int| 0 <= a < i ==> #[trigger] rows[a].len() == xs.len() - 1,
            forall|a: int, j: int|
                0 <= a < i && 0 <= j < xs.len() - 1 ==> (#[trigger] rows[a]@[j])@ == cell_spec(
                    spans@,
                    cell_at(xs@, ys@, a, j),
                ),
        decreases ys.len() - i,
    {
        let mut row: Vec<String> = Vec::new();
        let mut j: usize = 0;
        while j + 1 < xs.len()
            invariant
                j + 1 <= xs.len(),
                i + 1 < ys.len(),
                in_coordinate_range(xs@),
                in_coordinate_range(ys@),
                row.len() == j,
                forall|b: int| 0 <= b < j ==> (#[trigger] row@[b])@ == cell_spec(
                    spans@,
                    cell_at(xs@, ys@, i as int, b),
                ),
            decreases xs.len() - j,
        {
            let c = CellBox { xa: xs[j], xb: xs[j + 1], ya: ys[i], yb: ys[i + 1] };
            assert(box_in_range(c)) by {
                let v = seq![c.xa, c.xb, c.ya, c.yb];
                assert(i32::MIN <= xs@[j as int] <= i32::MAX);
                assert(i32::MIN <= xs@[j + 1] <= i32::MAX);
                assert(i32::MIN <= ys@[i as int] <= i32::MAX);
                assert(i32::MIN <= ys@[i + 1] <= i32::MAX);
                assert forall|k: int| 0 <= k < v.len() implies i32::MIN <= #[trigger] v[k] <= i32::MAX by {
                    if k == 0 {} else if k == 1 {} else if k == 2 {} else {}
                }
            }
            let cell = cell_text(spans, c);
            row.push(cell);
            j = j + 1;
        }
        rows.push(row);
        i = i + 1;
    }
    rows
}

proof fn lemma_positions_in_range(l: Seq<LineSegment>)
    ensures
        in_coordinate_range(horizontal_ys(l)),
        in_coordinate_range(vertical_xs(l)),
    decreases l.len(),
{
    if l.len() > 0 {
        lemma_positions_in_range(l.drop_last());
    }
}

/// The line is horizontal, lies within `ey` of `y`, and reaches from `xa` to
/// `xb` within `ex`.
pub open spec fn crosses_row(l: LineSegment, y: int, xa: int, xb: int, ey: int, ex: int) -> bool {
    &&& is_horizontal(l)
    &&& y - ey <= l.y0 <= y + ey
    &&& (if l.x0 <= l.x1 { l.x0 as int } else { l.x1 as int }) <= xa + ex
    &&& (if l.x0 <= l.x1 { l.x1 as int } else { l.x0 as int }) >= xb - ex
}

/// The line is vertical, lies within `ex` of `x`, and reaches from `ya` to
/// `yb` within `ey`.
pub open spec fn crosses_column(l: LineSegment, x: int, ya: int, yb: int, ey: int, ex: int) -> bool {
    &&& is_vertical(l)
    &&& x - ex <= l.x0 <= x + ex
    &&& (if l.y0 <= l.y1 { l.y0 as int } else { l.y1 as int }) <= ya + ey
    &&& (if l.y0 <= l.y1 { l.y1 as int } else { l.y0 as int }) >= yb - ey
}

/// Row boundaries of the page's grid.
pub open spec fn page_row_bounds(p: Page) -> Seq<i64> {
    boundaries_of(horizontal_ys(p.line_segments@), ROW_TOLERANCE as int)
}

/// Column boundaries of the page's grid.
pub open spec fn page_column_bounds(p: Page) -> Seq<i64> {
    boundaries_of(vertical_xs(p.line_segments@), COLUMN_TOLERANCE as int)
}

/// The page's lines form a grid: at least two row and two column boundaries.
/// A grid that does not make a table (a single cell, or ruling that does not
/// connect) is still counted as found, and skipped.
pub open spec fn page_has_grid(p: Page) -> bool {
    page_row_bounds(p).len() >= 2 && page_column_bounds(p).len() >= 2
}

/// Whether the page's lines form a grid.
pub fn detects_grid(page: &Page) -> (r: bool)
    ensures
        r == page_has_grid(*page),
{
    proof { lemma_positions_in_range(page.line_segments@); }
    let hs = horizontal_positions(&page.line_segments);
    let vs = vertical_positions(&page.line_segments);
    let ys = cluster_boundaries(&hs, ROW_TOLERANCE);
    let xs = cluster_boundaries(&vs, COLUMN_TOLERANCE);
    ys.len() >= 2 && xs.len() >= 2
}

fn rule_crosses_row(l: &LineSegment, y: i64, xa: i64, xb: i64) -> (r: bool)
    requires
        in_coordinate_range(seq![y, xa, xb]),
    ensures
        r == crosses_row(*l, y as int, xa as int, xb as int, ROW_TOLERANCE as int, COLUMN_TOLERANCE as int),
{
    assert(i32::MIN <= seq![y, xa, xb][0] <= i32::MAX);
    assert(i32::MIN <= seq![y, xa, xb][1] <= i32::MAX);
    assert(i32::MIN <= seq![y, xa, xb][2] <= i32::MAX);
    let lo: i64 = if l.x0 <= l.x1 { l.x0 as i64 } else { l.x1 as i64 };
    let hi: i64 = if l.x0 <= l.x1 { l.x1 as i64 } else { l.x0 as i64 };
    l.is_horizontal() && y - ROW_TOLERANCE <= l.y0 as i64 && l.y0 as i64 <= y + ROW_TOLERANCE
        && lo <= xa + COLUMN_TOLERANCE && hi >= xb - COLUMN_TOLERANCE
}

fn rule_crosses_column(l: &LineSegment, x: i64, ya: i64, yb: i64) -> (r: bool)
    requires
        in_coordinate_range(seq![x, ya, yb]),
    ensures
        r == crosses_column(*l, x as int, ya as int, yb as int, ROW_TOLERANCE as int, COLUMN_TOLERANCE as int),
{
    assert(i32::MIN <= seq![x, ya, yb][0] <= i32::MAX);
    assert(i32::MIN <= seq![x, ya, yb][1] <= i32::MAX);
    assert(i32::MIN <= seq![x, ya, yb][2] <= i32::MAX);
    let lo: i64 = if l.y0 <= l.y1 { l.y0 as i64 } else { l.y1 as i64 };
    let hi: i64 = if l.y0 <= l.y1 { l.y1 as i64 } else { l.y0 as i64 };
    l.is_vertical() && x - COLUMN_TOLERANCE <= l.x0 as i64 && l.x0 as i64 <= x + COLUMN_TOLERANCE
        && lo <= ya + ROW_TOLERANCE && hi >= yb - ROW_TOLERANCE
}

/// Some line rules the row boundary `y` across `[xa, xb]`.
pub open spec fn ruled_across(l: Seq<LineSegment>, y: i64, xa: i64, xb: i64) -> bool {
    exists|k: int| 0 <= k < l.len() && #[trigger] crosses_row(
        l[k], y as int, xa as int, xb as int, ROW_TOLERANCE as int, COLUMN_TOLERANCE as int)
}

/// Some line rules the column boundary `x` down `[ya, yb]`.
pub open spec fn ruled_down(l: Seq<LineSegment>, x: i64, ya: i64, yb: i64) -> bool {
    exists|k: int| 0 <= k < l.len() && #[trigger] crosses_column(
        l[k], x as int, ya as int, yb as int, ROW_TOLERANCE as int, COLUMN_TOLERANCE as int)
}

/// Row boundaries among the first `n` of `ys` that lie in the box and are
/// ruled across its full width.
pub open spec fn box_rows_upto(l: Seq<LineSegment>, ys: Seq<i64>, b: CellBox, n: int) -> Seq<i64>
    decreases n,
{
    if n <= 0 {
        Seq::empty()
    } else if b.ya <= ys[n - 1] <= b.yb && ruled_across(l, ys[n - 1], b.xa, b.xb) {
        box_rows_upto(l, ys, b, n - 1).push(ys[n - 1])
    } else {
        box_rows_upto(l, ys, b, n - 1)
    }
}

/// Column boundaries among the first `n` of `xs` that lie in the box and are
/// ruled down its full height.
pub open spec fn box_cols_upto(l: Seq<LineSegment>, xs: Seq<i64>, b: CellBox, n: int) -> Seq<i64>
    decreases n,
{
    if n <= 0 {
        Seq::empty()
    } else if b.xa <= xs[n - 1] <= b.xb && ruled_down(l, xs[n - 1], b.ya, b.yb) {
        box_cols_upto(l, xs, b, n - 1).push(xs[n - 1])
    } else {
        box_cols_upto(l, xs, b, n - 1)
    }
}

/// Row boundaries of the grid with outer rectangle `b`.
pub open spec fn box_rows(p: Page, b: CellBox) -> Seq<i64> {
    box_rows_upto(p.line_segments@, page_row_bounds(p), b, page_row_bounds(p).len() as int)
}

/// Column boundaries of the grid with outer rectangle `b`.
pub open spec fn box_cols(p: Page, b: CellBox) -> Seq<i64> {
    box_cols_upto(p.line_segments@, page_column_bounds(p), b, page_column_bounds(p).len() as int)
}

/// Number of cells of the grid with outer rectangle `b`.
pub open spec fn cell_count(p: Page, b: CellBox) -> int {
    let r = box_rows(p, b).len();
    let c = box_cols(p, b).len();
    if r >= 2 && c >= 2 {
        (r - 1) * (c - 1)
    } else {
        0
    }
}

/// `b` is a grid of the page: its corners are row and column boundaries, its
/// four sides are ruled, and it has more than one cell.
pub open spec fn is_candidate(p: Page, b: CellBox) -> bool {
    let ys = page_row_bounds(p);
    let xs = page_column_bounds(p);
    let l = p.line_segments@;
    &&& ys.contains(b.ya) && ys.contains(b.yb) && xs.contains(b.xa) && xs.contains(b.xb)
    &&& b.ya < b.yb && b.xa < b.xb
    &&& ruled_across(l, b.ya, b.xa, b.xb) && ruled_across(l, b.yb, b.xa, b.xb)
    &&& ruled_down(l, b.xa, b.ya, b.yb) && ruled_down(l, b.xb, b.ya, b.yb)
    &&& cell_count(p, b) >= 2
}

/// The two rectangles share some area.
pub open spec fn overlap(a: CellBox, b: CellBox) -> bool {
    a.ya < b.yb && b.ya < a.yb && a.xa < b.xb && b.xa < a.xb
}

/// `a` comes before `b` in reading order of rectangles: top edge, left edge,
/// bottom edge, right edge.
pub open spec fn before(a: CellBox, b: CellBox) -> bool {
    ||| a.ya < b.ya
    ||| (a.ya == b.ya && a.xa < b.xa)
    ||| (a.ya == b.ya && a.xa == b.xa && a.yb < b.yb)
    ||| (a.ya == b.ya && a.xa == b.xa && a.yb == b.yb && a.xb < b.xb)
}

/// Of two overlapping grids, `a` is preferred to `b`: more cells, or as many
/// and nearer the top of the page (then the left, for a full order).
pub open spec fn outranks(p: Page, a: CellBox, b: CellBox) -> bool {
    cell_count(p, a) > cell_count(p, b) || (cell_count(p, a) == cell_count(p, b) && before(a, b))
}

/// `b` is a grid of the page that no overlapping grid is preferred to.
pub open spec fn kept(p: Page, b: CellBox) -> bool {
    &&& is_candidate(p, b)
    &&& forall|c: CellBox| #[trigger] is_candidate(p, c) && overlap(b, c) ==> !outranks(p, c, b)
}

fn has_rule_across(lines: &Vec<LineSegment>, y: i64, xa: i64, xb: i64) -> (r: bool)
    requires
        in_coordinate_range(seq![y, xa, xb]),
    ensures
        r == ruled_across(lines@, y, xa, xb),
{
    let mut k: usize = 0;
    while k < lines.len()
        invariant
            k <= lines.len(),
            in_coordinate_range(seq![y, xa, xb]),
            forall|m: int| 0 <= m < k ==> !#[trigger] crosses_row(
                lines@[m], y as int, xa as int, xb as int, ROW_TOLERANCE as int, COLUMN_TOLERANCE as int),
        decreases lines.len() - k,
    {
        if rule_crosses_row(&lines[k], y, xa, xb) {
            return true;
        }
        k = k + 1;
    }
    false
}

fn has_rule_down(lines: &Vec<LineSegment>, x: i64, ya: i64, yb: i64) -> (r: bool)
    requires
        in_coordinate_range(seq![x, ya, yb]),
    ensures
        r == ruled_down(lines@, x, ya, yb),
{
    let mut k: usize = 0;
    while k < lines.len()
        invariant
            k <= lines.len(),
            in_coordinate_range(seq![x, ya, yb]),
            forall|m: int| 0 <= m < k ==> !#[trigger] crosses_column(
                lines@[m], x as int, ya as int, yb as int, ROW_TOLERANCE as int, COLUMN_TOLERANCE as int),
        decreases lines.len() - k,
    {
        if rule_crosses_column(&lines[k], x, ya, yb) {
            return true;
        }
        k = k + 1;
    }
    false
}

proof fn lemma_range3(a: i64, b: i64, c: i64)
    requires
        i32::MIN <= a <= i32::MAX,
        i32::MIN <= b <= i32::MAX,
        i32::MIN <= c <= i32::MAX,
    ensures
        in_coordinate_range(seq![a, b, c]),
{
    let v = seq![a, b, c];
    assert forall|k: int| 0 <= k < v.len() implies i32::MIN <= #[trigger] v[k] <= i32::MAX by {
        if k == 0 {} else if k == 1 {} else {}
    }
}

proof fn lemma_box_in_range(b: CellBox)
    requires
        i32::MIN <= b.xa <= i32::MAX,
        i32::MIN <= b.xb <= i32::MAX,
        i32::MIN <= b.ya <= i32::MAX,
        i32::MIN <= b.yb <= i32::MAX,
    ensures
        box_in_range(b),
{
    let v = seq![b.xa, b.xb, b.ya, b.yb];
    assert forall|k: int| 0 <= k < v.len() implies i32::MIN <= #[trigger] v[k] <= i32::MAX by {
        if k == 0 {} else if k == 1 {} else if k == 2 {} else {}
    }
}

proof fn lemma_box_bounds_in_range(l: Seq<LineSegment>, ys: Seq<i64>, xs: Seq<i64>, b: CellBox, n: int)
    requires
        in_coordinate_range(ys),
        in_coordinate_range(xs),
        n <= ys.len(),
        n <= xs.len(),
    ensures
        in_coordinate_range(box_rows_upto(l, ys, b, n)),
        in_coordinate_range(box_cols_upto(l, xs, b, n)),
    decreases n,
{
    if n > 0 {
        lemma_box_bounds_in_range(l, ys, xs, b, n - 1);
        assert(i32::MIN <= ys[n - 1] <= i32::MAX);
        assert(i32::MIN <= xs[n - 1] <= i32::MAX);
    }
}

/// The row boundaries of the grid with outer rectangle `b`.
fn rows_of_box(lines: &Vec<LineSegment>, ys: &Vec<i64>, b: CellBox) -> (r: Vec<i64>)
    requires
        in_coordinate_range(ys@),
        box_in_range(b),
    ensures
        r@ == box_rows_upto(lines@, ys@, b, ys.len() as int),
{
    let mut r: Vec<i64> = Vec::new();
    let mut i: usize = 0;
    while i < ys.len()
        invariant
            i <= ys.len(),
            in_coordinate_range(ys@),
            box_in_range(b),
            r@ == box_rows_upto(lines@, ys@, b, i as int),
        decreases ys.len() - i,
    {
        let y = ys[i];
        proof {
            assert(i32::MIN <= ys@[i as int] <= i32::MAX);
            assert(i32::MIN <= seq![b.xa, b.xb, b.ya, b.yb][0] <= i32::MAX);
            assert(i32::MIN <= seq![b.xa, b.xb, b.ya, b.yb][1] <= i32::MAX);
            lemma_range3(y, b.xa, b.xb);
        }
        if b.ya <= y && y <= b.yb && has_rule_across(lines, y, b.xa, b.xb) {
            r.push(y);
        }
        i = i + 1;
    }
    r
}

/// The column boundaries of the grid with outer rectangle `b`.
fn cols_of_box(lines: &Vec<LineSegment>, xs: &Vec<i64>, b: CellBox) -> (r: Vec<i64>)
    requires
        in_coordinate_range(xs@),
        box_in_range(b),
    ensures
        r@ == box_cols_upto(lines@, xs@, b, xs.len() as int),
{
    let mut r: Vec<i64> = Vec::new();
    let mut i: usize = 0;
    while i < xs.len()
        invariant
            i <= xs.len(),
            in_coordinate_range(xs@),
            box_in_range(b),
            r@ == box_cols_upto(lines@, xs@, b, i as int),
        decreases xs.len() - i,
    {
        let x = xs[i];
        proof {
            assert(i32::MIN <= xs@[i as int] <= i32::MAX);
            assert(i32::MIN <= seq![b.xa, b.xb, b.ya, b.yb][2] <= i32::MAX);
            assert(i32::MIN <= seq![b.xa, b.xb, b.ya, b.yb][3] <= i32::MAX);
            lemma_range3(x, b.ya, b.yb);
        }
        if b.xa <= x && x <= b.xb && has_rule_down(lines, x, b.ya, b.yb) {
            r.push(x);
        }
        i = i + 1;
    }
    r
}

/// All pairs `(a, b)` of values of `v` with `a < b`.
fn ordered_pairs(v: &Vec<i64>) -> (r: Vec<(i64, i64)>)
    ensures
        forall|k: int| 0 <= k < r.len() ==> v@.contains((#[trigger] r@[k]).0) && v@.contains(r@[k].1) && r@[k].0 < r@[k].1,
        forall|i: int, j: int| 0 <= i < v.len() && 0 <= j < v.len() && v@[i] < v@[j] ==> r@.contains(
            (#[trigger] v@[i], #[trigger] v@[j])),
{
    let mut r: Vec<(i64, i64)> = Vec::new();
    let mut i: usize = 0;
    while i < v.len()
        invariant
            i <= v.len(),
            forall|k: int| 0 <= k < r.len() ==> v@.contains((#[trigger] r@[k]).0) && v@.contains(r@[k].1) && r@[k].0 < r@[k].1,
            forall|a: int, c: int| 0 <= a < i && 0 <= c < v.len() && v@[a] < v@[c] ==> r@.contains(
                (#[trigger] v@[a], #[trigger] v@[c])),
        decreases v.len() - i,
    {
        let mut j: usize = 0;
        while j < v.len()
            invariant
                j <= v.len(),
                i < v.len(),
                forall|k: int| 0 <= k < r.len() ==> v@.contains((#[trigger] r@[k]).0) && v@.contains(r@[k].1) && r@[k].0 < r@[k].1,
                forall|a: int, c: int| 0 <= a < i && 0 <= c < v.len() && v@[a] < v@[c] ==> r@.contains(
                    (#[trigger] v@[a], #[trigger] v@[c])),
                forall|c: int| 0 <= c < j && v@[i as int] < v@[c] ==> r@.contains((v@[i as int], #[trigger] v@[c])),
            decreases v.len() - j,
        {
            if v[i] < v[j] {
                let ghost before = r@;
                r.push((v[i], v[j]));
                assert(r@[r.len() - 1] == (v@[i as int], v@[j as int]));
                assert forall|k: int| 0 <= k < r.len() implies v@.contains((#[trigger] r@[k]).0) && v@.contains(r@[k].1)
                    && r@[k].0 < r@[k].1 by {
                    if k < before.len() {
                        assert(r@[k] == before[k]);
                    } else {
                        assert(v@[i as int] == r@[k].0);
                        assert(v@[j as int] == r@[k].1);
                    }
                }
                assert forall|a: int, c: int| 0 <= a < i && 0 <= c < v.len() && v@[a] < v@[c] implies r@.contains(
                    (#[trigger] v@[a], #[trigger] v@[c])) by {
                    let w = choose|w: int| 0 <= w < before.len() && before[w] == (v@[a], v@[c]);
                    assert(r@[w] == before[w]);
                }
                assert forall|c: int| 0 <= c < j + 1 && v@[i as int] < v@[c] implies r@.contains((v@[i as int], #[trigger] v@[c])) by {
                    if c < j {
                        let w = choose|w: int| 0 <= w < before.len() && before[w] == (v@[i as int], v@[c]);
                        assert(r@[w] == before[w]);
                    } else {
                        assert(r@[r.len() - 1] == (v@[i as int], v@[c]));
                    }
                }
            }
            j = j + 1;
        }
        assert forall|a: int, c: int| 0 <= a < i + 1 && 0 <= c < v.len() && v@[a] < v@[c] implies r@.contains(
            (#[trigger] v@[a], #[trigger] v@[c])) by {
            if a == i {
                assert(r@.contains((v@[i as int], v@[c])));
            }
        }
        i = i + 1;
    }
    r
}

proof fn lemma_member_in_range(v: Seq<i64>, a: i64)
    requires
        in_coordinate_range(v),
        v.contains(a),
    ensures
        i32::MIN <= a <= i32::MAX,
{
    let k = choose|k: int| 0 <= k < v.len() && v[k] == a;
    assert(i32::MIN <= v[k] <= i32::MAX);
}

/// Number of cells of the grid with outer rectangle `b`.
fn count_cells(page: &Page, ys: &Vec<i64>, xs: &Vec<i64>, b: CellBox) -> (r: u128)
    requires
        ys@ == page_row_bounds(*page),
        xs@ == page_column_bounds(*page),
        in_coordinate_range(ys@),
        in_coordinate_range(xs@),
        box_in_range(b),
    ensures
        r == cell_count(*page, b),
{
    let rs = rows_of_box(&page.line_segments, ys, b);
    let cs = cols_of_box(&page.line_segments, xs, b);
    if rs.len() >= 2 && cs.len() >= 2 {
        let a = (rs.len() - 1) as u128;
        let c = (cs.len() - 1) as u128;
        assert(a * c <= u128::MAX) by (nonlinear_arith)
            requires
                a <= 0xffff_ffff_ffff_ffffu128,
                c <= 0xffff_ffff_ffff_ffffu128,
        ;
        a * c
    } else {
        0
    }
}

/// The rectangle with rows `p` and columns `q`.
pub open spec fn pair_box(p: (i64, i64), q: (i64, i64)) -> CellBox {
    CellBox { xa: q.0, xb: q.1, ya: p.0, yb: p.1 }
}

/// Whether `b`, whose corners are boundaries, is a grid of the page.
fn candidate_check(page: &Page, ys: &Vec<i64>, xs: &Vec<i64>, b: CellBox) -> (r: bool)
    requires
        ys@ == page_row_bounds(*page),
        xs@ == page_column_bounds(*page),
        in_coordinate_range(ys@),
        in_coordinate_range(xs@),
        ys@.contains(b.ya),
        ys@.contains(b.yb),
        xs@.contains(b.xa),
        xs@.contains(b.xb),
        b.ya < b.yb,
        b.xa < b.xb,
    ensures
        r == is_candidate(*page, b),
{
    proof {
        lemma_member_in_range(ys@, b.ya);
        lemma_member_in_range(ys@, b.yb);
        lemma_member_in_range(xs@, b.xa);
        lemma_member_in_range(xs@, b.xb);
        lemma_range3(b.ya, b.xa, b.xb);
        lemma_range3(b.yb, b.xa, b.xb);
        lemma_range3(b.xa, b.ya, b.yb);
        lemma_range3(b.xb, b.ya, b.yb);
        lemma_box_in_range(b);
    }
    let l = &page.line_segments;
    has_rule_across(l, b.ya, b.xa, b.xb) && has_rule_across(l, b.yb, b.xa, b.xb) && has_rule_down(
        l,
        b.xa,
        b.ya,
        b.yb,
    ) && has_rule_down(l, b.xb, b.ya, b.yb) && count_cells(page, ys, xs, b) >= 2
}

/// Every grid of the page.
fn candidate_boxes(page: &Page, ys: &Vec<i64>, xs: &Vec<i64>) -> (r: Vec<CellBox>)
    requires
        ys@ == page_row_bounds(*page),
        xs@ == page_column_bounds(*page),
        in_coordinate_range(ys@),
        in_coordinate_range(xs@),
    ensures
        forall|k: int| 0 <= k < r.len() ==> is_candidate(*page, #[trigger] r@[k]),
        forall|b: CellBox| #[trigger] is_candidate(*page, b) ==> r@.contains(b),
{
    let rp = ordered_pairs(ys);
    let cp = ordered_pairs(xs);
    let mut r: Vec<CellBox> = Vec::new();
    let mut u: usize = 0;
    while u < rp.len()
        invariant
            u <= rp.len(),
            ys@ == page_row_bounds(*page),
            xs@ == page_column_bounds(*page),
            in_coordinate_range(ys@),
            in_coordinate_range(xs@),
            forall|k: int| 0 <= k < rp.len() ==> ys@.contains((#[trigger] rp@[k]).0) && ys@.contains(rp@[k].1) && rp@[k].0 < rp@[k].1,
            forall|k: int| 0 <= k < cp.len() ==> xs@.contains((#[trigger] cp@[k]).0) && xs@.contains(cp@[k].1) && cp@[k].0 < cp@[k].1,
            forall|k: int| 0 <= k < r.len() ==> is_candidate(*page, #[trigger] r@[k]),
            forall|a: int, c: int| 0 <= a < u && 0 <= c < cp.len() && is_candidate(*page, pair_box(#[trigger] rp@[a], #[trigger] cp@[c]))
                ==> r@.contains(pair_box(rp@[a], cp@[c])),
        decreases rp.len() - u,
    {
        let mut w: usize = 0;
        while w < cp.len()
            invariant
                w <= cp.len(),
                u < rp.len(),
                ys@ == page_row_bounds(*page),
                xs@ == page_column_bounds(*page),
                in_coordinate_range(ys@),
                in_coordinate_range(xs@),
                forall|k: int| 0 <= k < rp.len() ==> ys@.contains((#[trigger] rp@[k]).0) && ys@.contains(rp@[k].1) && rp@[k].0 < rp@[k].1,
                forall|k: int| 0 <= k < cp.len() ==> xs@.contains((#[trigger] cp@[k]).0) && xs@.contains(cp@[k].1) && cp@[k].0 < cp@[k].1,
                forall|k: int| 0 <= k < r.len() ==> is_candidate(*page, #[trigger] r@[k]),
                forall|a: int, c: int| 0 <= a < u && 0 <= c < cp.len() && is_candidate(*page, pair_box(#[trigger] rp@[a], #[trigger] cp@[c]))
                    ==> r@.contains(pair_box(rp@[a], cp@[c])),
                forall|c: int| 0 <= c < w && is_candidate(*page, pair_box(rp@[u as int], #[trigger] cp@[c]))
                    ==> r@.contains(pair_box(rp@[u as int], cp@[c])),
            decreases cp.len() - w,
        {
            let b = CellBox { xa: cp[w].0, xb: cp[w].1, ya: rp[u].0, yb: rp[u].1 };
            assert(b == pair_box(rp@[u as int], cp@[w as int]));
            assert(ys@.contains(rp@[u as int].0));
            assert(xs@.contains(cp@[w as int].0));
            if candidate_check(page, ys, xs, b) {
                let ghost before = r@;
                r.push(b);
                assert(r@[r.len() - 1] == b);
                assert forall|a: int, c: int| 0 <= a < u && 0 <= c < cp.len() && is_candidate(*page, pair_box(#[trigger] rp@[a], #[trigger] cp@[c]))
                    implies r@.contains(pair_box(rp@[a], cp@[c])) by {
                    let q = choose|q: int| 0 <= q < before.len() && before[q] == pair_box(rp@[a], cp@[c]);
                    assert(r@[q] == before[q]);
                }
                assert forall|c: int| 0 <= c < w + 1 && is_candidate(*page, pair_box(rp@[u as int], #[trigger] cp@[c]))
                    implies r@.contains(pair_box(rp@[u as int], cp@[c])) by {
                    if c < w {
                        let q = choose|q: int| 0 <= q < before.len() && before[q] == pair_box(rp@[u as int], cp@[c]);
                        assert(r@[q] == before[q]);
                    } else {
                        assert(r@[r.len() - 1] == pair_box(rp@[u as int], cp@[c]));
                    }
                }
            }
            w = w + 1;
        }
        u = u + 1;
    }
    assert forall|b: CellBox| #[trigger] is_candidate(*page, b) implies r@.contains(b) by {
        let i = choose|i: int| 0 <= i < ys.len() && ys@[i] == b.ya;
        let j = choose|j: int| 0 <= j < ys.len() && ys@[j] == b.yb;
        let g = choose|g: int| 0 <= g < xs.len() && xs@[g] == b.xa;
        let h = choose|h: int| 0 <= h < xs.len() && xs@[h] == b.xb;
        assert(rp@.contains((ys@[i], ys@[j])));
        assert(cp@.contains((xs@[g], xs@[h])));
        let a = choose|a: int| 0 <= a < rp.len() && rp@[a] == (ys@[i], ys@[j]);
        let c = choose|c: int| 0 <= c < cp.len() && cp@[c] == (xs@[g], xs@[h]);
        assert(pair_box(rp@[a], cp@[c]) == b);
    }
    r
}

fn contains_box(v: &Vec<CellBox>, b: CellBox) -> (r: bool)
    ensures
        r == v@.contains(b),
{
    let mut k: usize = 0;
    while k < v.len()
        invariant
            k <= v.len(),
            forall|m: int| 0 <= m < k ==> v@[m] != b,
        decreases v.len() - k,
    {
        if v[k] == b {
            return true;
        }
        k = k + 1;
    }
    false
}

fn box_before(a: CellBox, b: CellBox) -> (r: bool)
    ensures
        r == before(a, b),
{
    a.ya < b.ya || (a.ya == b.ya && a.xa < b.xa) || (a.ya == b.ya && a.xa == b.xa && a.yb < b.yb) || (
    a.ya == b.ya && a.xa == b.xa && a.yb == b.yb && a.xb < b.xb)
}

/// The grids of the page that no overlapping grid is preferred to, each once.
fn kept_boxes(page: &Page, ys: &Vec<i64>, xs: &Vec<i64>) -> (r: Vec<CellBox>)
    requires
        ys@ == page_row_bounds(*page),
        xs@ == page_column_bounds(*page),
        in_coordinate_range(ys@),
        in_coordinate_range(xs@),
    ensures
        forall|k: int| 0 <= k < r.len() ==> kept(*page, #[trigger] r@[k]),
        forall|b: CellBox| #[trigger] kept(*page, b) ==> r@.contains(b),
        forall|k1: int, k2: int| 0 <= k1 < k2 < r.len() ==> r@[k1] != r@[k2],
{
    let cands = candidate_boxes(page, ys, xs);
    let mut out: Vec<CellBox> = Vec::new();
    let mut k: usize = 0;
    while k < cands.len()
        invariant
            k <= cands.len(),
            ys@ == page_row_bounds(*page),
            xs@ == page_column_bounds(*page),
            in_coordinate_range(ys@),
            in_coordinate_range(xs@),
            forall|q: int| 0 <= q < cands.len() ==> is_candidate(*page, #[trigger] cands@[q]),
            forall|b: CellBox| #[trigger] is_candidate(*page, b) ==> cands@.contains(b),
            forall|q: int| 0 <= q < out.len() ==> kept(*page, #[trigger] out@[q]),
            forall|q: int| 0 <= q < k && kept(*page, #[trigger] cands@[q]) ==> out@.contains(cands@[q]),
            forall|k1: int, k2: int| 0 <= k1 < k2 < out.len() ==> out@[k1] != out@[k2],
        decreases cands.len() - k,
    {
        let b = cands[k];
        proof {
            lemma_member_in_range(ys@, b.ya);
            lemma_member_in_range(ys@, b.yb);
            lemma_member_in_range(xs@, b.xa);
            lemma_member_in_range(xs@, b.xb);
            lemma_box_in_range(b);
        }
        let cb = count_cells(page, ys, xs, b);
        let mut beaten = false;
        let mut m: usize = 0;
        while m < cands.len()
            invariant
                m <= cands.len(),
                k < cands.len(),
                b == cands@[k as int],
                cb == cell_count(*page, b),
                ys@ == page_row_bounds(*page),
                xs@ == page_column_bounds(*page),
                in_coordinate_range(ys@),
                in_coordinate_range(xs@),
                forall|q: int| 0 <= q < cands.len() ==> is_candidate(*page, #[trigger] cands@[q]),
                !beaten ==> forall|q: int| 0 <= q < m ==> !(overlap(b, #[trigger] cands@[q]) && outranks(*page, cands@[q], b)),
                beaten ==> !kept(*page, b),
            decreases cands.len() - m,
        {
            let c = cands[m];
            if b.ya < c.yb && c.ya < b.yb && b.xa < c.xb && c.xa < b.xb {
                proof {
                    lemma_member_in_range(ys@, c.ya);
                    lemma_member_in_range(ys@, c.yb);
                    lemma_member_in_range(xs@, c.xa);
                    lemma_member_in_range(xs@, c.xb);
                    lemma_box_in_range(c);
                }
                let cc = count_cells(page, ys, xs, c);
                if cc > cb || (cc == cb && box_before(c, b)) {
                    assert(is_candidate(*page, c));
                    beaten = true;
                }
            }
            m = m + 1;
        }
        if !beaten {
            assert forall|c: CellBox| #[trigger] is_candidate(*page, c) && overlap(b, c) implies !outranks(*page, c, b) by {
                assert(cands@.contains(c));
                let q = choose|q: int| 0 <= q < cands.len() && cands@[q] == c;
                assert(!(overlap(b, cands@[q]) && outranks(*page, cands@[q], b)));
            }
            assert(kept(*page, b));
        }
        if !beaten && !contains_box(&out, b) {
            let ghost before = out@;
            out.push(b);
            assert forall|q: int| 0 <= q < k + 1 && kept(*page, #[trigger] cands@[q]) implies out@.contains(cands@[q]) by {
                if q < k {
                    let w = choose|w: int| 0 <= w < before.len() && before[w] == cands@[q];
                    assert(out@[w] == before[w]);
                } else {
                    assert(out@[out.len() - 1] == cands@[q]);
                }
            }
            assert forall|k1: int, k2: int| 0 <= k1 < k2 < out.len() implies out@[k1] != out@[k2] by {
                if k2 == out.len() - 1 {
                    assert(out@[k1] == before[k1]);
                } else {
                    assert(out@[k1] == before[k1] && out@[k2] == before[k2]);
                }
            }
            assert forall|q: int| 0 <= q < out.len() implies kept(*page, #[trigger] out@[q]) by {
                if q < before.len() {
                    assert(out@[q] == before[q]);
                }
            }
        } else if !beaten {
            assert(out@.contains(b));
        }
        k = k + 1;
    }
    assert forall|b: CellBox| #[trigger] kept(*page, b) implies out@.contains(b) by {
        assert(cands@.contains(b));
        let q = choose|q: int| 0 <= q < cands.len() && cands@[q] == b;
    }
    out
}

/// What extraction yields for a page: one table for each grid that no
/// overlapping grid is preferred to, each once, holding the page's number,
/// the grid's rectangle and the cells of the grid.
pub open spec fn extraction_result(page: Page, r: Seq<Table>) -> bool {
    &&& forall|t: int| 0 <= t < r.len() ==> kept(page, (#[trigger] r[t]).bbox) && r[t].page == page.page_number
        && rows_match(r[t].rows@, page.text_spans@, box_cols(page, r[t].bbox), box_rows(page, r[t].bbox))
    &&& forall|b: CellBox| #[trigger] kept(page, b) ==> exists|t: int| 0 <= t < r.len() && (#[trigger] r[t]).bbox == b
    &&& forall|t1: int, t2: int| 0 <= t1 < t2 < r.len() ==> (#[trigger] r[t1]).bbox != (#[trigger] r[t2]).bbox
}

/// Two tables with the same rectangle, page and cell texts.
pub open spec fn same_table(a: Table, b: Table) -> bool {
    &&& a.bbox == b.bbox
    &&& a.page == b.page
    &&& a.rows@.len() == b.rows@.len()
    &&& forall|i: int| 0 <= i < a.rows@.len() ==> same_texts(#[trigger] a.rows@[i]@, b.rows@[i]@)
}

/// Some table of `r` is the same as `a`.
pub open spec fn holds_same_table(r: Seq<Table>, a: Table) -> bool {
    exists|t: int| 0 <= t < r.len() && same_table(a, #[trigger] r[t])
}

/// Extraction is deterministic: for each table of one result, another result
/// for the same page holds the same table (same rectangle, page and cell texts).
pub proof fn lemma_extraction_deterministic(page: Page, r1: Seq<Table>, r2: Seq<Table>)
    requires
        extraction_result(page, r1),
        extraction_result(page, r2),
    ensures
        forall|t1: int| 0 <= t1 < r1.len() ==> holds_same_table(r2, #[trigger] r1[t1]),
{
    assert forall|t1: int| 0 <= t1 < r1.len() implies holds_same_table(r2, #[trigger] r1[t1]) by {
        let b = r1[t1].bbox;
        assert(kept(page, b));
        let t2 = choose|t2: int| 0 <= t2 < r2.len() && (#[trigger] r2[t2]).bbox == b;
        let xs = box_cols(page, b);
        assert forall|i: int| 0 <= i < r1[t1].rows@.len() implies same_texts(
            #[trigger] r1[t1].rows@[i]@,
            r2[t2].rows@[i]@,
        ) by {
            assert(r1[t1].rows@[i].len() == xs.len() - 1);
            assert(r2[t2].rows@[i].len() == xs.len() - 1);
        }
        assert(same_table(r1[t1], r2[t2]));
    }
}

/// Extracts the ruled tables of a page. The ruling lines are clustered into
/// row and column boundaries; every rectangle whose corners are boundaries,
/// whose sides are ruled and which holds more than one cell is a grid, with
/// the boundaries ruled across it as its rows and columns. Of overlapping
/// grids, the one with more cells is kept (on a tie, the one nearer the top).
/// Each kept grid gives one table whose cells hold the text of the spans
/// centered in them.
#[verifier::rlimit(60)]
pub fn extract_simple_tables(page: &Page) -> (r: Vec<Table>)
    ensures
        extraction_result(*page, r@),
        forall|t: int| 0 <= t < r.len() ==> rectangular(#[trigger] r[t].rows@),
{
    proof { lemma_positions_in_range(page.line_segments@); }
    let hs = horizontal_positions(&page.line_segments);
    let vs = vertical_positions(&page.line_segments);
    let ys = cluster_boundaries(&hs, ROW_TOLERANCE);
    let xs = cluster_boundaries(&vs, COLUMN_TOLERANCE);
    let boxes = kept_boxes(page, &ys, &xs);
    let mut tables: Vec<Table> = Vec::new();
    let mut t: usize = 0;
    while t < boxes.len()
        invariant
            t <= boxes.len(),
            ys@ == page_row_bounds(*page),
            xs@ == page_column_bounds(*page),
            in_coordinate_range(ys@),
            in_coordinate_range(xs@),
            forall|k: int| 0 <= k < boxes.len() ==> kept(*page, #[trigger] boxes@[k]),
            tables.len() == t,
            forall|q: int| 0 <= q < t ==> (#[trigger] tables@[q]).bbox == boxes@[q] && tables@[q].page
                == page.page_number && rows_match(
                tables@[q].rows@,
                page.text_spans@,
                box_cols(*page, boxes@[q]),
                box_rows(*page, boxes@[q]),
            ) && rectangular(tables@[q].rows@),
        decreases boxes.len() - t,
    {
        let b = boxes[t];
        assert(kept(*page, boxes@[t as int]));
        proof {
            lemma_member_in_range(ys@, b.ya);
            lemma_member_in_range(ys@, b.yb);
            lemma_member_in_range(xs@, b.xa);
            lemma_member_in_range(xs@, b.xb);
            lemma_box_in_range(b);
            lemma_box_bounds_in_range(page.line_segments@, ys@, ys@, b, ys@.len() as int);
            lemma_box_bounds_in_range(page.line_segments@, xs@, xs@, b, xs@.len() as int);
        }
        let rs = rows_of_box(&page.line_segments, &ys, b);
        let cs = cols_of_box(&page.line_segments, &xs, b);
        let rows = grid_rows(&page.text_spans, &cs, &rs);
        tables.push(Table { page: page.page_number, bbox: b, rows });
        t = t + 1;
    }
    assert forall|b: CellBox| #[trigger] kept(*page, b) implies exists|q: int| 0 <= q < tables.len() && (#[trigger] tables@[q]).bbox == b by {
        assert(boxes@.contains(b));
        let q = choose|q: int| 0 <= q < boxes.len() && boxes@[q] == b;
        assert(tables@[q].bbox == b);
    }
    assert forall|t1: int, t2: int| 0 <= t1 < t2 < tables.len() implies (#[trigger] tables@[t1]).bbox != (#[trigger] tables@[t2]).bbox by {
        assert(boxes@[t1] != boxes@[t2]);
    }
    tables
}

} // verus!
