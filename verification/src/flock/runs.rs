//! Which boids a boid looks at.
//!
//! The candidates are the boids of the three by three cells around it: up to
//! three contiguous spans of the sorted flock. Where they are too many, each
//! span gives its share as a circular window.

use vstd::prelude::*;

use crate::arith::{ceil_div, div_ceil, least, lemma_ceil_div, most};
use crate::flock::grid::{
    are_starts, cells_in_range, count_below, lemma_count_below_monotone, lemma_sorted_index_in_cell,
    sorted_index,
};

verus! {

/// The most candidates that a boid examines one by one; above it, they are
/// sampled.
pub const MAX_NEIGHBOUR_SAMPLES: usize = 128;

/// Mixes a boid's place into its sampling offset.
pub const SALT_MULTIPLIER: usize = 0x9E37_79B9;

/// The cell of a point in column `col` and row `row`; points past the last
/// column or row belong to it.
pub fn cell_index(col: usize, row: usize, cols: usize, rows: usize) -> (cell: u32)
    requires
        cols > 0,
        rows > 0,
        cols * rows <= u32::MAX,
    ensures
        cell == least(row as int, rows - 1) * cols + least(col as int, cols - 1),
        cell < cols * rows,
{
    let c: usize = if col < cols - 1 {
        col
    } else {
        cols - 1
    };
    let r: usize = if row < rows - 1 {
        row
    } else {
        rows - 1
    };
    assert(r * cols + c < cols * rows) by (nonlinear_arith)
        requires
            r <= rows - 1,
            c <= cols - 1,
    ;
    assert(0 <= r * cols) by (nonlinear_arith);
    (r * cols + c) as u32
}

/// The first of the up to three columns (or rows) around `x`.
pub open spec fn window_lo(x: int) -> int {
    most(x - 1, 0)
}

/// The end of the up to three columns (or rows) around `x`, of `limit` in all.
pub open spec fn window_hi(x: int, limit: int) -> int {
    least(x + 2, limit)
}

/// The places of the sorted flock that hold the cells `x0 .. x1` of row `y`.
pub open spec fn row_span(starts: Seq<u32>, cols: int, x0: int, x1: int, y: int) -> (int, int) {
    (starts[y * cols + x0] as int, starts[y * cols + x1] as int)
}

/// The spans of the three by three cells around the cell `(cx, cy)`, row by
/// row; at the edges there are fewer.
pub open spec fn neighbour_spans(
    starts: Seq<u32>,
    cols: int,
    rows: int,
    cx: int,
    cy: int,
) -> Seq<(int, int)> {
    Seq::new(
        (window_hi(cy, rows) - window_lo(cy)) as nat,
        |k: int| row_span(starts, cols, window_lo(cx), window_hi(cx, cols), window_lo(cy) + k),
    )
}

/// How many places the spans hold.
pub open spec fn total_len(spans: Seq<(int, int)>) -> int
    decreases spans.len(),
{
    if spans.len() == 0 {
        0
    } else {
        total_len(spans.drop_last()) + (spans.last().1 - spans.last().0)
    }
}

/// One of how many candidates is examined.
pub open spec fn sample_stride(candidates: int) -> int {
    most(ceil_div(candidates, MAX_NEIGHBOUR_SAMPLES as int), 1)
}

/// The share of the span `s .. e`: a window of `len / stride` places, rounded
/// up, that starts at `salt % len` and wraps around the end of the span.
pub open spec fn circular_window(s: int, e: int, stride: int, salt: int) -> Seq<(int, int)> {
    let len = e - s;
    if len == 0 {
        Seq::empty()
    } else {
        let take = ceil_div(len, stride);
        let start = salt % len;
        let first = least(start + take, len);
        let wrapped = take - (first - start);
        if wrapped > 0 {
            seq![(s + start, s + first), (s, s + wrapped)]
        } else {
            seq![(s + start, s + first)]
        }
    }
}

/// The windows of all spans, in order.
pub open spec fn circular_windows(spans: Seq<(int, int)>, stride: int, salt: int) -> Seq<
    (int, int),
>
    decreases spans.len(),
{
    if spans.len() == 0 {
        Seq::empty()
    } else {
        circular_windows(spans.drop_last(), stride, salt) + circular_window(
            spans.last().0,
            spans.last().1,
            stride,
            salt,
        )
    }
}

/// The runs of places that a boid examines: all candidates while they fit the
/// sample budget, else each span's window.
pub open spec fn sampled_runs(spans: Seq<(int, int)>, salt: int) -> Seq<(int, int)> {
    let stride = sample_stride(total_len(spans));
    if stride == 1 {
        spans
    } else {
        circular_windows(spans, stride, salt)
    }
}

/// The sampling offset of the boid at place `dst` in a frame.
pub open spec fn sample_salt(dst: usize, frame_salt: usize) -> usize {
    dst.wrapping_mul(SALT_MULTIPLIER).wrapping_add(frame_salt)
}

/// `runs` holds the pairs of `model`.
pub open spec fn same_runs(runs: Seq<(usize, usize)>, model: Seq<(int, int)>) -> bool {
    &&& runs.len() == model.len()
    &&& forall|k: int|
        0 <= k < runs.len() ==> (#[trigger] runs[k]).0 == model[k].0 && runs[k].1 == model[k].1
}

/// Every span of `spans` runs forward.
pub open spec fn spans_forward(spans: Seq<(int, int)>) -> bool {
    forall|k: int| 0 <= k < spans.len() ==> 0 <= (#[trigger] spans[k]).0 <= spans[k].1
}

/// Every span of `spans` starts behind the end of the one before it.
pub open spec fn spans_apart(spans: Seq<(int, int)>) -> bool {
    forall|j: int, k: int|
        0 <= j && k == j + 1 && k < spans.len() ==> (#[trigger] spans[j]).1 <= (
        #[trigger] spans[k]).0
}

/// `starts` rises from cell to cell.
pub open spec fn starts_rise(starts: Seq<u32>, ncells: int) -> bool {
    &&& starts.len() == ncells + 1
    &&& forall|c: int, d: int| 0 <= c <= d <= ncells ==> #[trigger] starts[c] <= #[trigger] starts[d]
}

/// The starts of a sorted flock rise.
pub proof fn lemma_starts_rise(starts: Seq<u32>, cells: Seq<u32>, ncells: int)
    requires
        are_starts(starts, cells, ncells),
        cells_in_range(cells, ncells),
        ncells >= 0,
    ensures
        starts_rise(starts, ncells),
{
    assert forall|c: int, d: int| 0 <= c <= d <= ncells implies #[trigger] starts[c]
        <= #[trigger] starts[d] by {
        lemma_count_below_monotone(cells, cells.len() as int, c, d);
    }
}

proof fn lemma_cell_in_grid(x: int, y: int, cols: int, rows: int)
    requires
        0 <= x <= cols,
        0 <= y < rows,
    ensures
        0 <= y * cols,
        0 <= y * cols + x <= cols * rows,
{
    assert(0 <= y * cols && y * cols + x <= cols * rows) by (nonlinear_arith)
        requires
            0 <= x <= cols,
            0 <= y < rows,
    ;
}

/// The window of one span: its two runs lie in the span.
proof fn lemma_window_bounds(len: int, stride: int, salt: int)
    requires
        len > 0,
        stride > 0,
        salt >= 0,
    ensures
        0 <= salt % len < len,
        1 <= ceil_div(len, stride) <= len,
        ({
            let take = ceil_div(len, stride);
            let start = salt % len;
            let first = least(start + take, len);
            let wrapped = take - (first - start);
            0 <= wrapped <= start
        }),
{
    lemma_ceil_div(len, stride);
}

/// The candidate spans around the cell `(cx, cy)`.
pub fn candidate_spans(starts: &Vec<u32>, cols: usize, rows: usize, cx: usize, cy: usize) -> (spans:
    Vec<(usize, usize)>)
    requires
        cx < cols,
        cy < rows,
        cols * rows <= u32::MAX,
        starts.len() == cols * rows + 1,
    ensures
        same_runs(
            spans@,
            neighbour_spans(starts@, cols as int, rows as int, cx as int, cy as int),
        ),
{
    let mut spans: Vec<(usize, usize)> = Vec::new();
    proof {
        lemma_cell_in_grid(0, 0, cols as int, rows as int);
        assert(cols <= cols * rows && rows <= cols * rows) by (nonlinear_arith)
            requires
                cols > 0,
                rows > 0,
        ;
    }
    let x0: usize = if cx == 0 {
        0
    } else {
        cx - 1
    };
    let x1: usize = if cols - cx < 2 {
        cols
    } else {
        cx + 2
    };
    let y0: usize = if cy == 0 {
        0
    } else {
        cy - 1
    };
    let y1: usize = if rows - cy < 2 {
        rows
    } else {
        cy + 2
    };
    let mut y: usize = y0;
    while y < y1
        invariant
            cx < cols,
            cy < rows,
            cols * rows <= u32::MAX,
            starts.len() == cols * rows + 1,
            y0 <= y <= y1 <= rows,
            x0 == window_lo(cx as int),
            x1 == window_hi(cx as int, cols as int),
            y0 == window_lo(cy as int),
            y1 == window_hi(cy as int, rows as int),
            spans.len() == y - y0,
            forall|k: int|
                0 <= k < spans.len() ==> (#[trigger] spans[k]).0 == row_span(
                    starts@,
                    cols as int,
                    x0 as int,
                    x1 as int,
                    y0 + k,
                ).0 && spans[k].1 == row_span(
                    starts@,
                    cols as int,
                    x0 as int,
                    x1 as int,
                    y0 + k,
                ).1,
        decreases y1 - y,
    {
        proof {
            lemma_cell_in_grid(x0 as int, y as int, cols as int, rows as int);
            lemma_cell_in_grid(x1 as int, y as int, cols as int, rows as int);
        }
        let s: usize = starts[y * cols + x0] as usize;
        let e: usize = starts[y * cols + x1] as usize;
        spans.push((s, e));
        y += 1;
    }
    spans
}

proof fn lemma_spans_forward(starts: Seq<u32>, cols: int, rows: int, cx: int, cy: int)
    requires
        0 <= cx < cols,
        0 <= cy < rows,
        starts_rise(starts, cols * rows),
    ensures
        spans_forward(neighbour_spans(starts, cols, rows, cx, cy)),
        spans_apart(neighbour_spans(starts, cols, rows, cx, cy)),
        forall|k: int|
            0 <= k < neighbour_spans(starts, cols, rows, cx, cy).len() ==> (
            #[trigger] neighbour_spans(starts, cols, rows, cx, cy)[k]).1 <= starts[cols * rows],
{
    let spans = neighbour_spans(starts, cols, rows, cx, cy);
    assert forall|k: int| 0 <= k < spans.len() implies 0 <= (#[trigger] spans[k]).0 <= spans[k].1
        <= starts[cols * rows] by {
        let y = window_lo(cy) + k;
        lemma_cell_in_grid(window_lo(cx), y, cols, rows);
        lemma_cell_in_grid(window_hi(cx, cols), y, cols, rows);
        assert(starts[y * cols + window_lo(cx)] <= starts[y * cols + window_hi(cx, cols)]);
        assert(starts[y * cols + window_hi(cx, cols)] <= starts[cols * rows]);
    }
    assert forall|j: int, k: int| 0 <= j && k == j + 1 && k < spans.len() implies (
    #[trigger] spans[j]).1 <= (#[trigger] spans[k]).0 by {
        let y = window_lo(cy) + j;
        lemma_cell_in_grid(window_hi(cx, cols), y, cols, rows);
        lemma_cell_in_grid(window_lo(cx), y + 1, cols, rows);
        assert((y + 1) * cols == y * cols + cols) by (nonlinear_arith);
        assert(starts[y * cols + window_hi(cx, cols)] <= starts[(y + 1) * cols + window_lo(cx)]);
    }
}

/// The runs that the boid at place `dst` examines, in cell `(cx, cy)`.
pub fn candidate_runs(
    starts: &Vec<u32>,
    cols: usize,
    rows: usize,
    cx: usize,
    cy: usize,
    dst: usize,
    frame_salt: usize,
) -> (runs: Vec<(usize, usize)>)
    requires
        cx < cols,
        cy < rows,
        cols * rows <= u32::MAX,
        starts_rise(starts@, cols * rows),
    ensures
        same_runs(
            runs@,
            sampled_runs(
                neighbour_spans(starts@, cols as int, rows as int, cx as int, cy as int),
                sample_salt(dst, frame_salt) as int,
            ),
        ),
{
    let spans: Vec<(usize, usize)> = candidate_spans(starts, cols, rows, cx, cy);
    let ghost model = neighbour_spans(starts@, cols as int, rows as int, cx as int, cy as int);
    let ghost total = starts@[cols * rows] as int;
    let mut candidates: usize = 0;
    let mut k: usize = 0;
    proof {
        lemma_spans_forward(starts@, cols as int, rows as int, cx as int, cy as int);
        assert(model.take(0) =~= Seq::empty());
        assert(model.take(model.len() as int) =~= model);
    }
    while k < spans.len()
        invariant
            k <= spans.len(),
            same_runs(spans@, model),
            spans_forward(model),
            spans_apart(model),
            total <= u32::MAX,
            forall|j: int| 0 <= j < model.len() ==> (#[trigger] model[j]).1 <= total,
            candidates == total_len(model.take(k as int)),
            k == 0 ==> candidates == 0,
            k > 0 ==> candidates <= model[k - 1].1,
        decreases spans.len() - k,
    {
        let span: (usize, usize) = spans[k];
        proof {
            assert(model[k as int].1 <= total);
            assert(0 <= model[k as int].0 <= model[k as int].1);
            assert(model.take(k + 1).drop_last() =~= model.take(k as int));
            assert(model.take(k + 1).last() == model[k as int]);
            if k > 0 {
                assert(model[k - 1].1 <= model[k as int].0);
            }
        }
        candidates = candidates + (span.1 - span.0);
        k += 1;
    }
    assert(model.take(k as int) =~= model);
    let stride: usize = div_ceil(candidates, MAX_NEIGHBOUR_SAMPLES);
    proof {
        lemma_ceil_div(candidates as int, MAX_NEIGHBOUR_SAMPLES as int);
    }
    if stride <= 1 {
        return spans;
    }
    let salt: usize = dst.wrapping_mul(SALT_MULTIPLIER).wrapping_add(frame_salt);
    let mut runs: Vec<(usize, usize)> = Vec::new();
    let mut j: usize = 0;
    assert(model.take(0) =~= Seq::empty());
    while j < spans.len()
        invariant
            j <= spans.len(),
            same_runs(spans@, model),
            spans_forward(model),
            forall|i: int| 0 <= i < model.len() ==> (#[trigger] model[i]).1 <= total,
            total <= usize::MAX,
            stride > 1,
            same_runs(runs@, circular_windows(model.take(j as int), stride as int, salt as int)),
        decreases spans.len() - j,
    {
        let span: (usize, usize) = spans[j];
        proof {
            assert(0 <= model[j as int].0 <= model[j as int].1);
            assert(model.take(j + 1).drop_last() =~= model.take(j as int));
            assert(model.take(j + 1).last() == model[j as int]);
        }
        let s: usize = span.0;
        let len: usize = span.1 - s;
        if len > 0 {
            proof {
                lemma_window_bounds(len as int, stride as int, salt as int);
            }
            let take: usize = div_ceil(len, stride);
            let start: usize = salt % len;
            let first: usize = if len - start < take {
                len
            } else {
                start + take
            };
            runs.push((s + start, s + first));
            let wrapped: usize = take - (first - start);
            if wrapped > 0 {
                runs.push((s, s + wrapped));
            }
        }
        j += 1;
    }
    assert(model.take(j as int) =~= model);
    runs
}

/// `p` lies in one of `runs`.
pub open spec fn examines(runs: Seq<(int, int)>, p: int) -> bool {
    exists|k: int| 0 <= k < runs.len() && (#[trigger] runs[k]).0 <= p < runs[k].1
}

/// While the candidates fit the budget, every one of them is examined.
pub proof fn law_few_candidates_are_all_examined(spans: Seq<(int, int)>, salt: int)
    requires
        0 <= total_len(spans) <= MAX_NEIGHBOUR_SAMPLES,
    ensures
        sampled_runs(spans, salt) == spans,
{
    lemma_ceil_div(total_len(spans), MAX_NEIGHBOUR_SAMPLES as int);
    let c = total_len(spans);
    let q = ceil_div(c, MAX_NEIGHBOUR_SAMPLES as int);
    if q > 1 {
        assert((q - 1) * MAX_NEIGHBOUR_SAMPLES >= MAX_NEIGHBOUR_SAMPLES) by (nonlinear_arith)
            requires
                q > 1,
        ;
    }
}

/// The window of a span is circular: from its starting place it takes the
/// following places, and goes on at the front of the span behind its end.
pub proof fn law_window_is_circular(s: int, e: int, stride: int, salt: int, p: int)
    requires
        s < e,
        stride > 0,
        salt >= 0,
        s <= p < e,
    ensures
        examines(circular_window(s, e, stride, salt), p) <==> (p - s - salt % (e - s)) % (e - s)
            < ceil_div(e - s, stride),
        total_len(circular_window(s, e, stride, salt)) == ceil_div(e - s, stride),
{
    let len = e - s;
    lemma_window_bounds(len, stride, salt);
    let take = ceil_div(len, stride);
    let start = salt % len;
    let first = least(start + take, len);
    let wrapped = take - (first - start);
    let window = circular_window(s, e, stride, salt);
    let d = p - s - start;
    if d >= 0 {
        vstd::arithmetic::div_mod::lemma_small_mod(d as nat, len as nat);
    } else {
        vstd::arithmetic::div_mod::lemma_mod_add_multiples_vanish(d, len);
        vstd::arithmetic::div_mod::lemma_small_mod((d + len) as nat, len as nat);
    }
    assert(window[0] == (s + start, s + first));
    if wrapped > 0 {
        assert(window[1] == (s, s + wrapped));
        assert(window.drop_last() =~= seq![(s + start, s + first)]);
        assert(window.drop_last().drop_last() =~= Seq::<(int, int)>::empty());
        assert(total_len(window.drop_last()) == first - start) by {
            reveal_with_fuel(total_len, 2);
        }
    } else {
        assert(window.drop_last() =~= Seq::<(int, int)>::empty());
        reveal_with_fuel(total_len, 2);
    }
}

proof fn lemma_total_len_concat(a: Seq<(int, int)>, b: Seq<(int, int)>)
    ensures
        total_len(a + b) == total_len(a) + total_len(b),
    decreases b.len(),
{
    if b.len() == 0 {
        assert(a + b =~= a);
    } else {
        assert((a + b).drop_last() =~= a + b.drop_last());
        lemma_total_len_concat(a, b.drop_last());
    }
}

proof fn lemma_windows_budget(spans: Seq<(int, int)>, stride: int, salt: int)
    requires
        spans_forward(spans),
        stride > 1,
        salt >= 0,
    ensures
        total_len(circular_windows(spans, stride, salt)) * stride <= total_len(spans) + spans.len()
            * (stride - 1),
    decreases spans.len(),
{
    if spans.len() > 0 {
        let head = spans.drop_last();
        assert forall|k: int| 0 <= k < head.len() implies 0 <= (#[trigger] head[k]).0
            <= head[k].1 by {
            assert(head[k] == spans[k]);
        }
        lemma_windows_budget(head, stride, salt);
        let (s, e) = spans.last();
        assert(0 <= s <= e) by {
            assert(spans[spans.len() - 1] == spans.last());
        }
        let window = circular_window(s, e, stride, salt);
        lemma_total_len_concat(circular_windows(head, stride, salt), window);
        let before = total_len(circular_windows(head, stride, salt));
        let own = total_len(window);
        if s < e {
            law_window_is_circular(s, e, stride, salt, s);
            lemma_ceil_div(e - s, stride);
            assert(own * stride <= (e - s) + (stride - 1)) by (nonlinear_arith)
                requires
                    (own - 1) * stride < e - s,
            ;
        } else {
            assert(own == 0);
        }
        assert((before + own) * stride == before * stride + own * stride) by (nonlinear_arith);
        assert(spans.len() * (stride - 1) == (spans.len() - 1) * (stride - 1) + (stride - 1))
            by (nonlinear_arith);
        assert(0 * stride == 0);
    }
}

/// However dense the flock, a boid examines few candidates: the budget and at
/// most one more for each span but the first.
pub proof fn law_sample_budget(spans: Seq<(int, int)>, salt: int)
    requires
        spans_forward(spans),
        spans.len() <= 3,
        salt >= 0,
        total_len(spans) >= 0,
    ensures
        total_len(sampled_runs(spans, salt)) < MAX_NEIGHBOUR_SAMPLES + 3,
{
    let c = total_len(spans);
    let stride = sample_stride(c);
    let budget = MAX_NEIGHBOUR_SAMPLES as int;
    lemma_ceil_div(c, budget);
    if stride > 1 {
        lemma_windows_budget(spans, stride, salt);
        let t = total_len(sampled_runs(spans, salt));
        let k = spans.len() as int;
        assert(t < budget + 3) by (nonlinear_arith)
            requires
                t * stride <= c + k * (stride - 1),
                c <= stride * budget,
                k <= 3,
                k >= 0,
                stride > 1,
        ;
    } else {
        assert(c <= budget) by (nonlinear_arith)
            requires
                ceil_div(c, budget) * budget >= c,
                ceil_div(c, budget) <= 1,
                budget == 128,
        ;
    }
}

proof fn lemma_cell_of_row(x: int, y: int, u: int, v: int, cols: int)
    requires
        0 <= x < cols,
        0 <= u <= cols,
    ensures
        y < v ==> y * cols + x < v * cols + u,
        y > v ==> y * cols + x >= v * cols + u,
{
    if y < v {
        assert(y * cols + x < v * cols + u) by (nonlinear_arith)
            requires
                0 <= x < cols,
                0 <= u,
                y + 1 <= v,
        ;
    }
    if y > v {
        assert(y * cols + x >= v * cols + u) by (nonlinear_arith)
            requires
                0 <= x,
                u <= cols,
                y >= v + 1,
                cols > 0,
        ;
    }
}

/// A boid in column `x` and row `y` lies in the spans around the cell
/// `(cx, cy)` exactly when its cell is one of the three by three around it.
pub proof fn law_spans_hold_the_neighbourhood(
    cells: Seq<u32>,
    starts: Seq<u32>,
    cols: int,
    rows: int,
    cx: int,
    cy: int,
    i: int,
    x: int,
    y: int,
)
    requires
        0 <= cx < cols,
        0 <= cy < rows,
        0 <= x < cols,
        0 <= y < rows,
        are_starts(starts, cells, cols * rows),
        0 <= i < cells.len(),
        cells[i] == y * cols + x,
    ensures
        examines(neighbour_spans(starts, cols, rows, cx, cy), sorted_index(cells, i)) <==> (cx - 1
            <= x <= cx + 1 && cy - 1 <= y <= cy + 1),
{
    let spans = neighbour_spans(starts, cols, rows, cx, cy);
    let n = cells.len() as int;
    let p = sorted_index(cells, i);
    let (x0, x1) = (window_lo(cx), window_hi(cx, cols));
    let y0 = window_lo(cy);
    lemma_sorted_index_in_cell(cells, i);
    assert forall|k: int| 0 <= k < spans.len() implies ((#[trigger] spans[k]).0 <= p < spans[k].1
        <==> y == y0 + k && x0 <= x < x1) by {
        let v = y0 + k;
        lemma_cell_in_grid(x0, v, cols, rows);
        lemma_cell_in_grid(x1, v, cols, rows);
        lemma_cell_in_grid(x, y, cols, rows);
        let (a, b) = (v * cols + x0, v * cols + x1);
        let c = y * cols + x;
        assert(spans[k] == (count_below(cells, n, a), count_below(cells, n, b)));
        lemma_cell_of_row(x, y, x0, v, cols);
        lemma_cell_of_row(x, y, x1, v, cols);
        if c < a {
            lemma_count_below_monotone(cells, n, c + 1, a);
        } else {
            lemma_count_below_monotone(cells, n, a, c);
        }
        if c < b {
            lemma_count_below_monotone(cells, n, c + 1, b);
        } else {
            lemma_count_below_monotone(cells, n, b, c);
        }
    }
    if cx - 1 <= x <= cx + 1 && cy - 1 <= y <= cy + 1 {
        assert(spans[y - y0].0 <= p < spans[y - y0].1);
    }
}

proof fn lemma_windows_in_bounds(spans: Seq<(int, int)>, stride: int, salt: int, total: int)
    requires
        spans_forward(spans),
        forall|k: int| 0 <= k < spans.len() ==> (#[trigger] spans[k]).1 <= total,
        stride > 0,
        salt >= 0,
    ensures
        spans_forward(circular_windows(spans, stride, salt)),
        forall|k: int|
            0 <= k < circular_windows(spans, stride, salt).len() ==> (
            #[trigger] circular_windows(spans, stride, salt)[k]).1 <= total,
    decreases spans.len(),
{
    if spans.len() > 0 {
        let head = spans.drop_last();
        assert forall|k: int| 0 <= k < head.len() implies 0 <= (#[trigger] head[k]).0 <= head[k].1
            <= total by {
            assert(head[k] == spans[k]);
        }
        lemma_windows_in_bounds(head, stride, salt, total);
        let (s, e) = spans.last();
        assert(0 <= s <= e <= total) by {
            assert(spans[spans.len() - 1] == spans.last());
        }
        if s < e {
            lemma_window_bounds(e - s, stride, salt);
        }
    }
}

/// Every run that a boid examines lies inside the sorted flock.
pub proof fn lemma_runs_in_bounds(
    starts: Seq<u32>,
    cols: int,
    rows: int,
    cx: int,
    cy: int,
    salt: int,
)
    requires
        0 <= cx < cols,
        0 <= cy < rows,
        starts_rise(starts, cols * rows),
        salt >= 0,
    ensures
        spans_forward(sampled_runs(neighbour_spans(starts, cols, rows, cx, cy), salt)),
        forall|k: int|
            0 <= k < sampled_runs(neighbour_spans(starts, cols, rows, cx, cy), salt).len() ==> (
            #[trigger] sampled_runs(neighbour_spans(starts, cols, rows, cx, cy), salt)[k]).1
                <= starts[cols * rows],
{
    let spans = neighbour_spans(starts, cols, rows, cx, cy);
    lemma_spans_forward(starts, cols, rows, cx, cy);
    let stride = sample_stride(total_len(spans));
    if stride != 1 {
        lemma_windows_in_bounds(spans, stride, salt, starts[cols * rows] as int);
    }
}

proof fn lemma_windows_stay_in_spans(
    spans: Seq<(int, int)>,
    stride: int,
    salt: int,
    p: int,
)
    requires
        spans_forward(spans),
        stride > 0,
        salt >= 0,
        examines(circular_windows(spans, stride, salt), p),
    ensures
        examines(spans, p),
    decreases spans.len(),
{
    let windows = circular_windows(spans, stride, salt);
    let k = choose|k: int| 0 <= k < windows.len() && (#[trigger] windows[k]).0 <= p < windows[k].1;
    if spans.len() > 0 {
        let head = spans.drop_last();
        let before = circular_windows(head, stride, salt);
        let (s, e) = spans.last();
        let own = circular_window(s, e, stride, salt);
        assert(spans[spans.len() - 1] == (s, e));
        if k < before.len() {
            assert(before[k] == windows[k]);
            assert forall|j: int| 0 <= j < head.len() implies 0 <= (#[trigger] head[j]).0
                <= head[j].1 by {
                assert(head[j] == spans[j]);
            }
            lemma_windows_stay_in_spans(head, stride, salt, p);
            let j = choose|j: int| 0 <= j < head.len() && (#[trigger] head[j]).0 <= p < head[j].1;
            assert(spans[j] == head[j]);
        } else {
            assert(own[k - before.len()] == windows[k]);
            assert(s < e);
            lemma_window_bounds(e - s, stride, salt);
            assert(s <= p < e);
        }
    }
}

/// Of many candidates some are examined, of few all; but never one that is no
/// candidate: the samples of a run lie within the run.
pub proof fn law_samples_are_candidates(spans: Seq<(int, int)>, salt: int, p: int)
    requires
        spans_forward(spans),
        salt >= 0,
        examines(sampled_runs(spans, salt), p),
    ensures
        examines(spans, p),
{
    let stride = sample_stride(total_len(spans));
    if stride != 1 {
        lemma_windows_stay_in_spans(spans, stride, salt, p);
    }
}

/// Up to one hundred and twenty-eight candidates are all examined; of more, one
/// share of each run, the smallest that brings them down to that number.
pub proof fn law_strides_fit_the_samples(candidates: int)
    requires
        candidates >= 0,
    ensures
        candidates <= 128 ==> sample_stride(candidates) == 1,
        candidates <= 128 * sample_stride(candidates),
        candidates > 128 ==> candidates > 128 * (sample_stride(candidates) - 1),
{
}

/// From frame to frame and from boid to boid the samples start elsewhere.
pub proof fn law_salts_move_on(dst: usize, frame_salt: usize)
    ensures
        frame_salt < usize::MAX ==> sample_salt(dst, (frame_salt + 1) as usize) == sample_salt(
            dst,
            frame_salt,
        ).wrapping_add(1),
        sample_salt(0, frame_salt) == frame_salt,
        sample_salt(1, 0) == 0x9E37_79B9,
{
}

/// Every run is sampled: from each, a share as large as the stride allows is
/// examined, beginning at the place that the salt gives and going round.
pub proof fn law_every_run_is_sampled(
    spans: Seq<(int, int)>,
    stride: int,
    salt: int,
    k: int,
    p: int,
)
    requires
        0 <= k < spans.len(),
        stride > 0,
        salt >= 0,
        spans[k].0 <= p < spans[k].1,
        ({
            let (s, e) = spans[k];
            (p - s - salt % (e - s)) % (e - s) < ceil_div(e - s, stride)
        }),
    ensures
        examines(circular_windows(spans, stride, salt), p),
    decreases spans.len(),
{
    let head = spans.drop_last();
    let before = circular_windows(head, stride, salt);
    let own = circular_window(spans.last().0, spans.last().1, stride, salt);
    let all = circular_windows(spans, stride, salt);
    if k < spans.len() - 1 {
        assert(head[k] == spans[k]);
        law_every_run_is_sampled(head, stride, salt, k, p);
        let j = choose|j: int| 0 <= j < before.len() && (#[trigger] before[j]).0 <= p < before[j].1;
        assert(all[j] == before[j]);
    } else {
        let (s, e) = spans[k];
        assert(spans.last() == spans[k]);
        law_window_is_circular(s, e, stride, salt, p);
        let j = choose|j: int| 0 <= j < own.len() && (#[trigger] own[j]).0 <= p < own[j].1;
        assert(all[before.len() + j] == own[j]);
    }
}

/// The runs of many candidates are sampled with the stride that fits them.
pub proof fn law_many_candidates_are_sampled(spans: Seq<(int, int)>, salt: int)
    requires
        total_len(spans) > 128,
    ensures
        sample_stride(total_len(spans)) > 1,
        sampled_runs(spans, salt) == circular_windows(
            spans,
            sample_stride(total_len(spans)),
            salt,
        ),
{
}

} // verus!
