//! The field: one direction per grid cell, how it is sampled, and the lines
//! that are traced through it.

use vstd::prelude::*;

use crate::oracle::{
    answer1, answer2, answer4, answered1, answered2, answered4, lemma_answer1, lemma_answer2,
    lemma_answer4, single_valued1, single_valued2, single_valued4,
};
use crate::rng::{rng_draw, rng_step, spread_seed, Rng};

verus! {

/// One direction per grid cell, row by row.
pub struct FlowField<D> {
    pub cols: usize,
    pub rows: usize,
    pub cells: Vec<D>,
}

/// The place of a cell.
pub open spec fn cell(row: int, col: int, cols: int) -> int {
    row * cols + col
}

pub proof fn lemma_cell(row: int, col: int, cols: int, rows: int)
    requires
        0 <= row < rows,
        0 <= col < cols,
    ensures
        0 <= cell(row, col, cols) < cols * rows,
        0 <= row * cols,
        cell(row, col, cols) / cols == row,
        cell(row, col, cols) % cols == col,
{
    assert(0 <= row * cols && row * cols + col < cols * rows) by (nonlinear_arith)
        requires
            0 <= row < rows,
            0 <= col < cols,
    ;
    vstd::arithmetic::div_mod::lemma_fundamental_div_mod_converse(
        cell(row, col, cols),
        cols,
        row,
        col,
    );
}

/// The cell behind `i` of `n`; the last has itself behind it.
pub open spec fn next_cell(i: int, n: int) -> int {
    if i + 1 < n {
        i + 1
    } else {
        n - 1
    }
}

impl<D: Copy> FlowField<D> {
    /// There is a direction for every cell.
    pub open spec fn wf(&self) -> bool {
        self.cells.len() == self.cols * self.rows
    }

    /// A field without cells.
    pub fn new() -> (field: Self)
        ensures
            field.wf(),
            field.cols == 0,
            field.rows == 0,
    {
        FlowField { cols: 0, rows: 0, cells: Vec::new() }
    }

    /// Generate the field anew, with at least one column and row. `direct`
    /// gives the direction of the cell in a column and row.
    pub fn rebuild<F: Fn(usize, usize) -> D>(&mut self, cols: usize, rows: usize, direct: F)
        requires
            cols * rows <= usize::MAX,
            single_valued2(direct),
            forall|c: usize, r: usize| direct.requires((c, r)),
        ensures
            final(self).wf(),
            final(self).cols == crate::arith::most(cols as int, 1),
            final(self).rows == crate::arith::most(rows as int, 1),
            forall|row: int, col: int|
                0 <= row < final(self).rows && 0 <= col < final(self).cols
                    ==> final(self).cells@[#[trigger] cell(row, col, final(self).cols as int)]
                    == answer2(direct, col as usize, row as usize),
            forall|row: int, col: int|
                0 <= row < final(self).rows && 0 <= col < final(self).cols ==> direct.ensures(
                    (col as usize, row as usize),
                    final(self).cells@[#[trigger] cell(row, col, final(self).cols as int)],
                ),
    {
        self.cols = if cols < 1 {
            1
        } else {
            cols
        };
        self.rows = if rows < 1 {
            1
        } else {
            rows
        };
        let (nc, nr) = (self.cols, self.rows);
        assert(nc * nr <= usize::MAX) by (nonlinear_arith)
            requires
                cols * rows <= usize::MAX,
                cols <= usize::MAX,
                rows <= usize::MAX,
                nc == cols || (cols == 0 && nc == 1),
                nr == rows || (rows == 0 && nr == 1),
        ;
        let total: usize = nc * nr;
        let mut cells: Vec<D> = Vec::new();
        let mut i: usize = 0;
        while i < total
            invariant
                i <= total,
                total == nc * nr,
                nc >= 1,
                cells.len() == i,
                single_valued2(direct),
                forall|c: usize, r: usize| direct.requires((c, r)),
                forall|k: int|
                    0 <= k < i ==> #[trigger] cells[k] == answer2(
                        direct,
                        (k % nc as int) as usize,
                        (k / nc as int) as usize,
                    ),
                forall|k: int|
                    0 <= k < i ==> direct.ensures(
                        ((k % nc as int) as usize, (k / nc as int) as usize),
                        #[trigger] cells[k],
                    ),
            decreases total - i,
        {
            let row: usize = i / nc;
            let col: usize = i % nc;
            let d: D = direct(col, row);
            proof {
                lemma_answer2(direct, col, row, d);
            }
            cells.push(d);
            i += 1;
        }
        self.cells = cells;
        proof {
            assert forall|row: int, col: int| 0 <= row < nr && 0 <= col < nc implies
                self.cells@[#[trigger] cell(row, col, nc as int)] == answer2(
                direct,
                col as usize,
                row as usize,
            ) && direct.ensures(
                (col as usize, row as usize),
                self.cells@[cell(row, col, nc as int)],
            ) by {
                lemma_cell(row, col, nc as int, nr as int);
            }
        }
    }

    /// The direction at a point whose neighbourhood starts at the cell
    /// `(c0, r0)` and whose nearest cell is `(cn, rn)`: the four cells around
    /// it blended, or, where they cancel out, the nearest one. A field without
    /// cells points along `still`.
    pub open spec fn sampled<B: Fn(D, D, D, D) -> Option<D>>(
        &self,
        c0: usize,
        r0: usize,
        cn: usize,
        rn: usize,
        still: D,
        blend: B,
    ) -> D {
        let (cols, rows) = (self.cols as int, self.rows as int);
        if cols == 0 || rows == 0 {
            still
        } else {
            let (c1, r1) = (next_cell(c0 as int, cols), next_cell(r0 as int, rows));
            match answer4(
                blend,
                self.cells[cell(r0 as int, c0 as int, cols)],
                self.cells[cell(r0 as int, c1, cols)],
                self.cells[cell(r1, c0 as int, cols)],
                self.cells[cell(r1, c1, cols)],
            ) {
                Some(d) => d,
                None => self.cells[cell(rn as int, cn as int, cols)],
            }
        }
    }

    /// The direction at a point.
    pub fn sample_dir<B: Fn(D, D, D, D) -> Option<D>>(
        &self,
        c0: usize,
        r0: usize,
        cn: usize,
        rn: usize,
        still: D,
        blend: B,
    ) -> (d: D)
        requires
            self.wf(),
            self.cols > 0 && self.rows > 0 ==> c0 < self.cols && cn < self.cols && r0 < self.rows
                && rn < self.rows,
            single_valued4(blend),
            forall|a: D, b: D, c: D, d: D| blend.requires((a, b, c, d)),
        ensures
            d == self.sampled(c0, r0, cn, rn, still, blend),
            self.cols > 0 && self.rows > 0 ==> {
                let (cols, rows) = (self.cols as int, self.rows as int);
                let (c1, r1) = (next_cell(c0 as int, cols), next_cell(r0 as int, rows));
                answered4(
                    blend,
                    self.cells[cell(r0 as int, c0 as int, cols)],
                    self.cells[cell(r0 as int, c1, cols)],
                    self.cells[cell(r1, c0 as int, cols)],
                    self.cells[cell(r1, c1, cols)],
                )
            },
    {
        if self.cols == 0 || self.rows == 0 {
            return still;
        }
        let (cols, rows) = (self.cols, self.rows);
        let c1: usize = if c0 < cols - 1 {
            c0 + 1
        } else {
            cols - 1
        };
        let r1: usize = if r0 < rows - 1 {
            r0 + 1
        } else {
            rows - 1
        };
        proof {
            lemma_cell(r0 as int, c0 as int, cols as int, rows as int);
            lemma_cell(r0 as int, c1 as int, cols as int, rows as int);
            lemma_cell(r1 as int, c0 as int, cols as int, rows as int);
            lemma_cell(r1 as int, c1 as int, cols as int, rows as int);
            lemma_cell(rn as int, cn as int, cols as int, rows as int);
        }
        let a: D = self.cells[r0 * cols + c0];
        let b: D = self.cells[r0 * cols + c1];
        let c: D = self.cells[r1 * cols + c0];
        let e: D = self.cells[r1 * cols + c1];
        let blended: Option<D> = blend(a, b, c, e);
        proof {
            lemma_answer4(blend, a, b, c, e, blended);
        }
        match blended {
            Some(d) => d,
            None => self.cells[rn * cols + cn],
        }
    }
}

/// The angle of a cell at a point of the noise. Where the field is warped, the
/// point is first moved by the noise itself, across and then down; the second
/// move reads the point as the first one left it.
pub open spec fn angle_at<X, V, A: Fn(X, X) -> X, B: Fn(X, X) -> X, C: Fn(X, X) -> V>(
    x: X,
    y: X,
    warped: bool,
    across: A,
    down: B,
    angle: C,
) -> V {
    if warped {
        let moved = answer2(across, x, y);
        answer2(angle, moved, answer2(down, moved, y))
    } else {
        answer2(angle, x, y)
    }
}

/// The angle of a cell at a point of the noise.
pub fn cell_angle<X: Copy, V, A: Fn(X, X) -> X, B: Fn(X, X) -> X, C: Fn(X, X) -> V>(
    x: X,
    y: X,
    warped: bool,
    across: A,
    down: B,
    angle: C,
) -> (v: V)
    requires
        single_valued2(across),
        single_valued2(down),
        single_valued2(angle),
        forall|a: X, b: X| across.requires((a, b)),
        forall|a: X, b: X| down.requires((a, b)),
        forall|a: X, b: X| angle.requires((a, b)),
    ensures
        v == angle_at(x, y, warped, across, down, angle),
        warped ==> {
            let moved = answer2(across, x, y);
            &&& answered2(across, x, y)
            &&& answered2(down, moved, y)
            &&& angle.ensures((moved, answer2(down, moved, y)), v)
        },
        !warped ==> angle.ensures((x, y), v),
{
    let mut px: X = x;
    let mut py: X = y;
    if warped {
        px = across(x, y);
        py = down(px, y);
        proof {
            lemma_answer2(across, x, y, px);
            lemma_answer2(down, px, y, py);
        }
    }
    let v: V = angle(px, py);
    proof {
        lemma_answer2(angle, px, py, v);
    }
    v
}

/// One step through the field: along the direction that is met half a step on.
pub open spec fn midpoint_step<P, D, F: Fn(P) -> D, H: Fn(P, D) -> P, S: Fn(P, D) -> P>(
    p: P,
    direction: F,
    half: H,
    whole: S,
) -> P {
    answer2(whole, p, answer1(direction, answer2(half, p, answer1(direction, p))))
}

/// One step through the field.
pub fn rk2_step<P: Copy, D, F: Fn(P) -> D, H: Fn(P, D) -> P, S: Fn(P, D) -> P>(
    p: P,
    direction: &F,
    half: &H,
    whole: &S,
) -> (q: P)
    requires
        single_valued1(*direction),
        single_valued2(*half),
        single_valued2(*whole),
        forall|a: P| direction.requires((a,)),
        forall|a: P, d: D| half.requires((a, d)),
        forall|a: P, d: D| whole.requires((a, d)),
    ensures
        q == midpoint_step(p, *direction, *half, *whole),
        ({
            let first = answer1(*direction, p);
            let middle = answer2(*half, p, first);
            &&& answered1(*direction, p)
            &&& answered2(*half, p, first)
            &&& answered1(*direction, middle)
            &&& whole.ensures((p, answer1(*direction, middle)), q)
        }),
{
    let first: D = direction(p);
    let ghost first_seen = first;
    proof {
        lemma_answer1(*direction, p, first);
    }
    let middle: P = half(p, first);
    proof {
        lemma_answer2(*half, p, first_seen, middle);
    }
    let second: D = direction(middle);
    let ghost second_seen = second;
    proof {
        lemma_answer1(*direction, middle, second);
    }
    let q: P = whole(p, second);
    proof {
        lemma_answer2(*whole, p, second_seen, q);
    }
    q
}

/// The points of a line after at most `k` steps from `p`: it ends with the
/// first point outside.
pub open spec fn traced<P, S: Fn(P) -> P, O: Fn(P) -> bool>(
    p: P,
    step: S,
    outside: O,
    k: nat,
) -> Seq<P>
    decreases k,
{
    if k == 0 {
        Seq::empty()
    } else {
        let next = answer1(step, p);
        if outside.ensures((next,), true) {
            seq![next]
        } else {
            seq![next] + traced(next, step, outside, (k - 1) as nat)
        }
    }
}

/// Every point of a line is where `step` put it from the one before. `outside`
/// has let all of them pass but the last, and the last too where the line has
/// had its `k` steps.
pub open spec fn was_traced<P, S: Fn(P) -> P, O: Fn(P) -> bool>(
    line: Seq<P>,
    step: S,
    outside: O,
    k: nat,
) -> bool {
    &&& 1 <= line.len() <= k + 1
    &&& forall|i: int|
        1 <= i < line.len() ==> step.ensures((line[i - 1],), #[trigger] line[i])
    &&& forall|i: int|
        1 <= i < line.len() - 1 ==> outside.ensures((#[trigger] line[i],), false)
    &&& line.len() <= k ==> outside.ensures((line.last(),), true)
}

/// Trace a line of at most `max_steps` steps through the field.
pub fn trace_streamline<P: Copy, S: Fn(P) -> P, O: Fn(P) -> bool>(
    start: P,
    max_steps: usize,
    step: &S,
    outside: &O,
) -> (line: Vec<P>)
    requires
        single_valued1(*step),
        single_valued1(*outside),
        forall|p: P| step.requires((p,)),
        forall|p: P| outside.requires((p,)),
    ensures
        line@ == seq![start] + traced(start, *step, *outside, max_steps as nat),
        was_traced(line@, *step, *outside, max_steps as nat),
{
    let mut line: Vec<P> = Vec::new();
    line.push(start);
    let mut p: P = start;
    let mut i: usize = 0;
    let ghost whole = seq![start] + traced(start, *step, *outside, max_steps as nat);
    assert(line@ + traced(p, *step, *outside, max_steps as nat) =~= whole);
    while i < max_steps
        invariant
            i <= max_steps,
            single_valued1(*step),
            single_valued1(*outside),
            forall|q: P| step.requires((q,)),
            forall|q: P| outside.requires((q,)),
            whole == seq![start] + traced(start, *step, *outside, max_steps as nat),
            line@ + traced(p, *step, *outside, (max_steps - i) as nat) == whole,
            line.len() == i + 1,
            line@.last() == p,
            forall|j: int|
                1 <= j < line.len() ==> step.ensures((line[j - 1],), #[trigger] line[j]),
            forall|j: int| 1 <= j < line.len() ==> outside.ensures((#[trigger] line[j],), false),
        decreases max_steps - i,
    {
        let ghost before = line@;
        let next: P = step(p);
        proof {
            lemma_answer1(*step, p, next);
        }
        line.push(next);
        if outside(next) {
            assert(line@ =~= whole);
            return line;
        }
        proof {
            let rest = traced(next, *step, *outside, (max_steps - i - 1) as nat);
            assert(before + (seq![next] + rest) =~= line@ + rest);
        }
        p = next;
        i += 1;
    }
    assert(line@ =~= whole);
    line
}

/// A line has at most one point more than its steps, and only its last point
/// may lie outside.
pub proof fn law_lines_end_at_the_border<P, S: Fn(P) -> P, O: Fn(P) -> bool>(
    p: P,
    step: S,
    outside: O,
    k: nat,
    i: int,
)
    requires
        0 <= i < traced(p, step, outside, k).len(),
    ensures
        traced(p, step, outside, k).len() <= k,
        i < traced(p, step, outside, k).len() - 1 ==> !outside.ensures(
            (traced(p, step, outside, k)[i],),
            true,
        ),
        traced(p, step, outside, k)[i] == answer1(
            step,
            if i == 0 {
                p
            } else {
                traced(p, step, outside, k)[i - 1]
            },
        ),
    decreases k,
{
    let next = answer1(step, p);
    if !outside.ensures((next,), true) {
        let rest = traced(next, step, outside, (k - 1) as nat);
        if i > 0 {
            law_lines_end_at_the_border(next, step, outside, (k - 1) as nat, i - 1);
        } else if rest.len() > 0 {
            law_lines_end_at_the_border(next, step, outside, (k - 1) as nat, 0);
        }
    }
}

/// A line that ends early ends outside.
pub proof fn law_short_lines_end_outside<P, S: Fn(P) -> P, O: Fn(P) -> bool>(
    p: P,
    step: S,
    outside: O,
    k: nat,
)
    requires
        k > 0,
    ensures
        traced(p, step, outside, k).len() > 0,
        traced(p, step, outside, k).len() < k ==> outside.ensures(
            (traced(p, step, outside, k).last(),),
            true,
        ),
    decreases k,
{
    let next = answer1(step, p);
    if !outside.ensures((next,), true) && k > 1 {
        law_short_lines_end_outside(next, step, outside, (k - 1) as nat);
        let rest = traced(next, step, outside, (k - 1) as nat);
        assert((seq![next] + rest).last() == rest.last());
    }
}

/// Bits mixed into the seed of the lines' starts.
pub const STREAM_SALT: u64 = 0xF10F;

/// The generator's state after `k` draws.
pub open spec fn drawn_state(state: u64, k: nat) -> u64
    decreases k,
{
    if k == 0 {
        state
    } else {
        rng_step(drawn_state(state, (k - 1) as nat))
    }
}

/// The two draws that place line `i` of the field with these seed bits.
pub open spec fn line_draws(seed_bits: u32, i: int) -> (u32, u32) {
    let state = spread_seed((seed_bits as u64) ^ STREAM_SALT);
    (
        rng_draw(drawn_state(state, (2 * i + 1) as nat)),
        rng_draw(drawn_state(state, (2 * i + 2) as nat)),
    )
}

/// The start of line `i` of the field with these seed bits: two draws, put into
/// place.
pub open spec fn line_start<P, L: Fn(u32, u32) -> P>(seed_bits: u32, place: L, i: int) -> P {
    let draws = line_draws(seed_bits, i);
    answer2(place, draws.0, draws.1)
}

/// Line `i` of the field with these seed bits, of at most `k` steps.
pub open spec fn line_at<P, L: Fn(u32, u32) -> P, S: Fn(P) -> P, O: Fn(P) -> bool>(
    seed_bits: u32,
    place: L,
    step: S,
    outside: O,
    k: nat,
    i: int,
) -> Seq<P> {
    let start = line_start(seed_bits, place, i);
    seq![start] + traced(start, step, outside, k)
}

/// Lines start where their seed puts them: a field that evolves, or lines of
/// another length, keep the starts.
pub proof fn law_lines_keep_their_starts<
    P,
    L: Fn(u32, u32) -> P,
    S: Fn(P) -> P,
    O: Fn(P) -> bool,
    T: Fn(P) -> P,
    Q: Fn(P) -> bool,
>(
    seed_bits: u32,
    place: L,
    i: int,
    step: S,
    outside: O,
    k: nat,
    other_step: T,
    other_outside: Q,
    other_k: nat,
)
    ensures
        line_at(seed_bits, place, step, outside, k, i)[0] == line_at(
            seed_bits,
            place,
            other_step,
            other_outside,
            other_k,
            i,
        )[0],
{
}

/// Trace all lines anew: `detail` of them, of twice `length` half-cell steps.
/// Where they start depends on the seed alone.
pub fn retrace_streamlines<P: Copy, L: Fn(u32, u32) -> P, S: Fn(P) -> P, O: Fn(P) -> bool>(
    seed_bits: u32,
    detail: usize,
    length: usize,
    place: L,
    step: &S,
    outside: &O,
) -> (lines: Vec<Vec<P>>)
    requires
        length <= usize::MAX / 2,
        single_valued2(place),
        single_valued1(*step),
        single_valued1(*outside),
        forall|a: u32, b: u32| place.requires((a, b)),
        forall|p: P| step.requires((p,)),
        forall|p: P| outside.requires((p,)),
    ensures
        lines.len() == detail,
        forall|i: int|
            0 <= i < detail ==> (#[trigger] lines[i])@ == line_at(
                seed_bits,
                place,
                *step,
                *outside,
                (2 * length) as nat,
                i,
            ) && was_traced(lines[i]@, *step, *outside, (2 * length) as nat) && place.ensures(
                line_draws(seed_bits, i),
                lines[i][0],
            ),
{
    let mut rng: Rng = Rng::spread(seed_bits as u64 ^ STREAM_SALT);
    let ghost state = rng.state;
    let mut lines: Vec<Vec<P>> = Vec::new();
    let mut i: usize = 0;
    while i < detail
        invariant
            i <= detail,
            length <= usize::MAX / 2,
            single_valued2(place),
            single_valued1(*step),
            single_valued1(*outside),
            forall|a: u32, b: u32| place.requires((a, b)),
            forall|p: P| step.requires((p,)),
            forall|p: P| outside.requires((p,)),
            state == spread_seed((seed_bits as u64) ^ STREAM_SALT),
            rng.state == drawn_state(state, (2 * i) as nat),
            lines.len() == i,
            forall|k: int|
                0 <= k < i ==> (#[trigger] lines[k])@ == line_at(
                    seed_bits,
                    place,
                    *step,
                    *outside,
                    (2 * length) as nat,
                    k,
                ) && was_traced(lines[k]@, *step, *outside, (2 * length) as nat) && place.ensures(
                    line_draws(seed_bits, k),
                    lines[k][0],
                ),
        decreases detail - i,
    {
        let across: u32 = rng.draw();
        let down: u32 = rng.draw();
        let start: P = place(across, down);
        proof {
            lemma_answer2(place, across, down, start);
            assert(drawn_state(state, (2 * i + 2) as nat) == rng_step(
                drawn_state(state, (2 * i + 1) as nat),
            ));
            assert(start == line_start(seed_bits, place, i as int));
        }
        lines.push(trace_streamline(start, length * 2, step, outside));
        i += 1;
    }
    lines
}

/// A grid's cells stand row by row: one column on is the next place, one row down
/// is a whole row of places on, and the last cell has the last place.
pub proof fn law_cells_stand_row_by_row(row: int, col: int, cols: int, rows: int)
    requires
        cols >= 1,
        rows >= 1,
    ensures
        cell(0, 0, cols) == 0,
        cell(row, col + 1, cols) == cell(row, col, cols) + 1,
        cell(row + 1, col, cols) == cell(row, col, cols) + cols,
        cell(rows - 1, cols - 1, cols) == cols * rows - 1,
{
    assert(cell(row + 1, col, cols) == cell(row, col, cols) + cols) by (nonlinear_arith);
    assert(cell(rows - 1, cols - 1, cols) == cols * rows - 1) by (nonlinear_arith);
    assert(cell(0, 0, cols) == 0) by (nonlinear_arith);
}

/// A sample between cells blends the cell it starts from with its neighbours to
/// the right, below, and below to the right, in this order; in the last column
/// and row there is none further. Where these cancel out, the nearest cell
/// decides; an empty field has the still direction everywhere.
pub proof fn law_samples_blend_neighbouring_cells<D: Copy, B: Fn(D, D, D, D) -> Option<D>>(
    field: FlowField<D>,
    c0: usize,
    r0: usize,
    cn: usize,
    rn: usize,
    still: D,
    blend: B,
)
    requires
        field.wf(),
        field.cols > 0 && field.rows > 0 ==> c0 < field.cols && cn < field.cols && r0 < field.rows
            && rn < field.rows,
    ensures
        ({
            let (cols, rows) = (field.cols as int, field.rows as int);
            let here = r0 * cols + c0;
            let right = if c0 + 1 < cols {
                here + 1
            } else {
                here
            };
            let below = if r0 + 1 < rows {
                here + cols
            } else {
                here
            };
            let both = right + below - here;
            let d = field.sampled(c0, r0, cn, rn, still, blend);
            &&& cols == 0 || rows == 0 ==> d == still
            &&& cols > 0 && rows > 0 ==> {
                match answer4(
                    blend,
                    field.cells[here],
                    field.cells[right],
                    field.cells[below],
                    field.cells[both],
                ) {
                    Some(mean) => d == mean,
                    None => d == field.cells[rn * cols + cn],
                }
            }
        }),
{
    let (cols, rows) = (field.cols as int, field.rows as int);
    if cols > 0 && rows > 0 {
        assert((r0 + 1) * cols + c0 == r0 * cols + c0 + cols) by (nonlinear_arith);
        assert(next_cell(c0 as int, cols) == c0 + 1 || next_cell(c0 as int, cols) == c0);
        assert(cell(r0 as int, c0 as int, cols) == r0 * cols + c0);
        let c1 = next_cell(c0 as int, cols);
        let r1 = next_cell(r0 as int, rows);
        assert(cell(r0 as int, c1, cols) == r0 * cols + c1);
        if r0 + 1 < rows {
            assert(cell(r1, c0 as int, cols) == r0 * cols + c0 + cols);
            assert((r0 + 1) * cols + c1 == r0 * cols + c1 + cols) by (nonlinear_arith);
            assert(cell(r1, c1, cols) == r0 * cols + c1 + cols);
        } else {
            assert(r1 == r0);
        }
        assert(cell(rn as int, cn as int, cols) == rn * cols + cn);
    }
}

/// A step goes by the direction half a step on: that, and no other, is what the
/// whole step is taken along, from where it starts. In a field of one direction
/// that is its direction.
pub proof fn law_steps_go_by_their_middle<
    P,
    D,
    F: Fn(P) -> D,
    H: Fn(P, D) -> P,
    S: Fn(P, D) -> P,
>(p: P, direction: F, half: H, whole: S, d: D)
    ensures
        ({
            let middle = answer2(half, p, answer1(direction, p));
            answer1(direction, middle) == d ==> midpoint_step(p, direction, half, whole) == answer2(
                whole,
                p,
                d,
            )
        }),
        (forall|q: P| #[trigger] answer1(direction, q) == d) ==> midpoint_step(
            p,
            direction,
            half,
            whole,
        ) == answer2(whole, p, d),
{
}

/// A warp moves the place first across, by where it was, and then down, by where
/// it was moved to; without one the angle is that of the place itself.
pub proof fn law_warps_move_across_then_down<
    X,
    V,
    A: Fn(X, X) -> X,
    B: Fn(X, X) -> X,
    C: Fn(X, X) -> V,
>(x: X, y: X, across: A, down: B, angle: C, moved: X, lowered: X)
    requires
        moved == answer2(across, x, y),
        lowered == answer2(down, moved, y),
    ensures
        angle_at(x, y, true, across, down, angle) == angle_at(
            moved,
            lowered,
            false,
            across,
            down,
            angle,
        ),
        angle_at(x, y, false, across, down, angle) == answer2(angle, x, y),
{
}

/// Each line draws its own start, the two draws behind those of the line before
/// it: the first line takes the first two.
pub proof fn law_lines_draw_in_turn(seed_bits: u32, i: int)
    requires
        i >= 0,
    ensures
        ({
            let start = spread_seed((seed_bits as u64) ^ 0xF10F);
            let mid = drawn_state(start, (2 * i) as nat);
            &&& drawn_state(start, 0) == start
            &&& line_draws(seed_bits, i) == (
                rng_draw(rng_step(mid)),
                rng_draw(rng_step(rng_step(mid))),
            )
            &&& drawn_state(start, (2 * (i + 1)) as nat) == rng_step(rng_step(mid))
        }),
{
    reveal_with_fuel(drawn_state, 3);
}

} // verus!
