//! The flock's frame on the processor: keep its size, sort it, and let every
//! boid steer against the sorted flock.

use vstd::prelude::*;

use crate::arith::{ceil_div, least, most};
use crate::flock::grid::{cells_in_range, is_cell_sorted, lemma_starts_end, FlockGrid};
use crate::flock::runs::{
    candidate_runs, cell_index, lemma_runs_in_bounds, lemma_starts_rise, neighbour_spans,
    same_runs, sample_salt, sampled_runs, starts_rise,
};
use crate::oracle::{answer1, answered1, lemma_answer1, single_valued1};

verus! {

/// The column of a raw column number: those past the last count as the last.
pub open spec fn home(raw: usize, limit: usize) -> int {
    least(raw as int, limit - 1)
}

/// The cell of a boid whose raw column and row are `raw`.
pub open spec fn home_cell(raw: (usize, usize), cols: usize, rows: usize) -> int {
    home(raw.1, rows) * cols + home(raw.0, cols)
}

/// The runs of places that the boid at place `dst` examines.
pub open spec fn runs_at(
    starts: Seq<u32>,
    cols: usize,
    rows: usize,
    raw: (usize, usize),
    dst: usize,
    frame_salt: usize,
) -> Seq<(int, int)> {
    sampled_runs(
        neighbour_spans(
            starts,
            cols as int,
            rows as int,
            home(raw.0, cols),
            home(raw.1, rows),
        ),
        sample_salt(dst, frame_salt) as int,
    )
}

/// Every run lies among the first `n` places and runs forward.
pub open spec fn runs_in_bounds(runs: Seq<(usize, usize)>, n: int) -> bool {
    forall|k: int| 0 <= k < runs.len() ==> (#[trigger] runs[k]).0 <= runs[k].1 <= n
}

/// `next` is what `steer` answers for place `dst` of the sorted flock and the
/// runs that `model` gives.
pub open spec fn steered<B, S: Fn(&FlockGrid<B>, usize, &Vec<(usize, usize)>) -> B>(
    steer: S,
    grid: FlockGrid<B>,
    dst: usize,
    model: Seq<(int, int)>,
    next: B,
) -> bool {
    exists|runs: Vec<(usize, usize)>|
        same_runs(runs@, model) && #[trigger] steer.ensures((&grid, dst, &runs), next)
}

/// Place `dst` of the sorted flock has become `state`, shown as `record`; `was`
/// are the records of the frame before.
pub open spec fn is_stepped<B, I, L, S, P>(
    grid: FlockGrid<B>,
    was: Seq<I>,
    cols: usize,
    rows: usize,
    frame_salt: usize,
    locate: L,
    steer: S,
    publish: P,
    dst: usize,
    state: B,
    record: I,
) -> bool where
    L: Fn(B) -> (usize, usize),
    S: Fn(&FlockGrid<B>, usize, &Vec<(usize, usize)>) -> B,
    P: Fn(B, I) -> I,
 {
    &&& steered(
        steer,
        grid,
        dst,
        runs_at(
            grid.starts@,
            cols,
            rows,
            answer1(locate, grid.sorted[dst as int]),
            dst,
            frame_salt,
        ),
        state,
    )
    &&& publish.ensures((state, was[dst as int]), record)
}

/// Sort the flock into the cells of a grid. `locate` gives a boid's raw grid
/// column and row.
pub fn sort_flock<B: Copy, L: Fn(B) -> (usize, usize)>(
    flock: &Vec<B>,
    cols: usize,
    rows: usize,
    sort_chunk: usize,
    locate: &L,
) -> (grid: FlockGrid<B>)
    requires
        cols > 0,
        rows > 0,
        cols * rows < u32::MAX,
        sort_chunk > 0,
        flock.len() <= u32::MAX,
        flock.len() + sort_chunk <= usize::MAX,
        most(ceil_div(flock.len() as int, sort_chunk as int), 1) * (cols * rows) <= usize::MAX,
        single_valued1(*locate),
        forall|b: B| locate.requires((b,)),
    ensures
        grid.wf(cols * rows),
        grid.cell_of.len() == flock.len(),
        forall|i: int|
            0 <= i < flock.len() ==> #[trigger] grid.cell_of[i] == home_cell(
                answer1(*locate, flock[i]),
                cols,
                rows,
            ),
        forall|i: int| 0 <= i < flock.len() ==> answered1(*locate, #[trigger] flock[i]),
        is_cell_sorted(grid.sorted@, flock@, grid.cell_of@),
{
    let n: usize = flock.len();
    let mut cell_of: Vec<u32> = Vec::new();
    let mut i: usize = 0;
    while i < n
        invariant
            i <= n,
            n == flock.len(),
            cols > 0,
            rows > 0,
            cols * rows < u32::MAX,
            forall|b: B| locate.requires((b,)),
            cell_of.len() == i,
            cells_in_range(cell_of@, cols * rows),
            single_valued1(*locate),
            forall|j: int|
                0 <= j < i ==> #[trigger] cell_of[j] == home_cell(
                    answer1(*locate, flock[j]),
                    cols,
                    rows,
                ),
            forall|j: int| 0 <= j < i ==> answered1(*locate, #[trigger] flock[j]),
        decreases n - i,
    {
        let raw: (usize, usize) = locate(flock[i]);
        proof {
            lemma_answer1(*locate, flock[i as int], raw);
        }
        let cell: u32 = cell_index(raw.0, raw.1, cols, rows);
        cell_of.push(cell);
        i += 1;
    }
    FlockGrid::rebuild(flock, cell_of, cols * rows, sort_chunk)
}

/// Let the boids of the places `lo .. hi` steer against the sorted flock: the
/// next state of each, and its render record. Places do not depend on one
/// another, so that a flock may be cut into such ranges at will.
pub fn steer_range<B: Copy, I: Copy, L, S, P>(
    grid: &FlockGrid<B>,
    instances: &Vec<I>,
    cols: usize,
    rows: usize,
    frame_salt: usize,
    lo: usize,
    hi: usize,
    locate: &L,
    steer: &S,
    publish: &P,
) -> (steps: Vec<(B, I)>) where
    L: Fn(B) -> (usize, usize),
    S: Fn(&FlockGrid<B>, usize, &Vec<(usize, usize)>) -> B,
    P: Fn(B, I) -> I,

    requires
        cols > 0,
        rows > 0,
        cols * rows < u32::MAX,
        grid.wf(cols * rows),
        lo <= hi <= grid.sorted.len(),
        grid.sorted.len() == instances.len(),
        single_valued1(*locate),
        forall|b: B| locate.requires((b,)),
        forall|g: FlockGrid<B>, dst: usize, runs: Vec<(usize, usize)>|
            dst < g.sorted.len() && runs_in_bounds(runs@, g.sorted.len() as int)
                ==> steer.requires((&g, dst, &runs)),
        forall|b: B, i: I| publish.requires((b, i)),
    ensures
        steps.len() == hi - lo,
        forall|k: int|
            0 <= k < steps.len() ==> is_stepped(
                *grid,
                instances@,
                cols,
                rows,
                frame_salt,
                *locate,
                *steer,
                *publish,
                (lo + k) as usize,
                (#[trigger] steps[k]).0,
                steps[k].1,
            ),
        forall|k: int| lo <= k < hi ==> answered1(*locate, #[trigger] grid.sorted[k]),
{
    let ghost ncells = cols * rows;
    proof {
        lemma_starts_rise(grid.starts@, grid.cell_of@, ncells);
        lemma_starts_end(grid.starts@, grid.cell_of@, ncells);
    }
    let mut steps: Vec<(B, I)> = Vec::new();
    let mut dst: usize = lo;
    while dst < hi
        invariant
            lo <= dst <= hi <= grid.sorted.len(),
            grid.sorted.len() == instances.len(),
            cols > 0,
            rows > 0,
            cols * rows < u32::MAX,
            grid.starts@[cols * rows] == grid.sorted.len(),
            starts_rise(grid.starts@, cols * rows),
            forall|b: B| locate.requires((b,)),
            forall|g: FlockGrid<B>, d: usize, runs: Vec<(usize, usize)>|
                d < g.sorted.len() && runs_in_bounds(runs@, g.sorted.len() as int)
                    ==> steer.requires((&g, d, &runs)),
            forall|b: B, r: I| publish.requires((b, r)),
            single_valued1(*locate),
            steps.len() == dst - lo,
            forall|k: int|
                0 <= k < steps.len() ==> is_stepped(
                    *grid,
                    instances@,
                    cols,
                    rows,
                    frame_salt,
                    *locate,
                    *steer,
                    *publish,
                    (lo + k) as usize,
                    (#[trigger] steps[k]).0,
                    steps[k].1,
                ),
            forall|k: int| lo <= k < dst ==> answered1(*locate, #[trigger] grid.sorted[k]),
        decreases hi - dst,
    {
        let raw: (usize, usize) = locate(grid.sorted[dst]);
        let cx: usize = if raw.0 < cols - 1 {
            raw.0
        } else {
            cols - 1
        };
        let cy: usize = if raw.1 < rows - 1 {
            raw.1
        } else {
            rows - 1
        };
        let runs: Vec<(usize, usize)> = candidate_runs(
            &grid.starts,
            cols,
            rows,
            cx,
            cy,
            dst,
            frame_salt,
        );
        proof {
            lemma_answer1(*locate, grid.sorted[dst as int], raw);
            lemma_runs_in_bounds(
                grid.starts@,
                cols as int,
                rows as int,
                cx as int,
                cy as int,
                sample_salt(dst, frame_salt) as int,
            );
        }
        let next: B = steer(grid, dst, &runs);
        let record: I = publish(next, instances[dst]);
        assert(steered(
            *steer,
            *grid,
            dst,
            runs_at(grid.starts@, cols, rows, raw, dst, frame_salt),
            next,
        ));
        steps.push((next, record));
        dst += 1;
    }
    steps
}

/// One frame of the flock.
///
/// `locate` gives a boid's raw grid column and row, `steer` a boid's next
/// state from the sorted flock, its place and the runs it examines, and
/// `publish` the render record of that state from the place's last record.
/// The flock comes out in cell order.
pub fn flocking<B: Copy, I: Copy, L, S, P>(
    flock: &mut Vec<B>,
    instances: &mut Vec<I>,
    cols: usize,
    rows: usize,
    sort_chunk: usize,
    frame_salt: usize,
    locate: L,
    steer: S,
    publish: P,
) -> (grid: FlockGrid<B>) where
    L: Fn(B) -> (usize, usize),
    S: Fn(&FlockGrid<B>, usize, &Vec<(usize, usize)>) -> B,
    P: Fn(B, I) -> I,

    requires
        cols > 0,
        rows > 0,
        cols * rows < u32::MAX,
        sort_chunk > 0,
        old(flock).len() == old(instances).len(),
        old(flock).len() <= u32::MAX,
        old(flock).len() + sort_chunk <= usize::MAX,
        most(ceil_div(old(flock).len() as int, sort_chunk as int), 1) * (cols * rows) <= usize::MAX,
        single_valued1(locate),
        forall|b: B| locate.requires((b,)),
        forall|g: FlockGrid<B>, dst: usize, runs: Vec<(usize, usize)>|
            dst < g.sorted.len() && runs_in_bounds(runs@, g.sorted.len() as int)
                ==> steer.requires((&g, dst, &runs)),
        forall|b: B, i: I| publish.requires((b, i)),
    ensures
        grid.wf(cols * rows),
        grid.cell_of.len() == old(flock).len(),
        forall|i: int|
            0 <= i < old(flock).len() ==> #[trigger] grid.cell_of[i] == home_cell(
                answer1(locate, old(flock)[i]),
                cols,
                rows,
            ),
        forall|i: int| 0 <= i < old(flock).len() ==> answered1(locate, #[trigger] old(flock)[i]),
        forall|i: int|
            0 <= i < old(flock).len() ==> answered1(locate, #[trigger] grid.sorted[i]),
        is_cell_sorted(grid.sorted@, old(flock)@, grid.cell_of@),
        final(flock).len() == old(flock).len(),
        final(instances).len() == old(instances).len(),
        forall|k: int|
            #![trigger final(flock)[k]]
            #![trigger final(instances)[k]]
            0 <= k < old(flock).len() ==> is_stepped(
                grid,
                old(instances)@,
                cols,
                rows,
                frame_salt,
                locate,
                steer,
                publish,
                k as usize,
                final(flock)[k],
                final(instances)[k],
            ),
{
    let n: usize = flock.len();
    let grid: FlockGrid<B> = sort_flock(flock, cols, rows, sort_chunk, &locate);
    let steps: Vec<(B, I)> = steer_range(
        &grid,
        instances,
        cols,
        rows,
        frame_salt,
        0,
        n,
        &locate,
        &steer,
        &publish,
    );
    let mut k: usize = 0;
    while k < n
        invariant
            k <= n,
            n == flock.len() == instances.len() == steps.len(),
            forall|j: int| 0 <= j < k ==> #[trigger] flock[j] == steps[j].0,
            forall|j: int| 0 <= j < k ==> #[trigger] instances[j] == steps[j].1,
        decreases n - k,
    {
        flock.set(k, steps[k].0);
        instances.set(k, steps[k].1);
        k += 1;
    }
    proof {
        assert forall|j: int| 0 <= j < n implies is_stepped(
            grid,
            old(instances)@,
            cols,
            rows,
            frame_salt,
            locate,
            steer,
            publish,
            j as usize,
            #[trigger] flock[j],
            instances[j],
        ) by {
            assert(flock[j] == steps[j].0 && instances[j] == steps[j].1);
        }
    }
    grid
}

/// A boid belongs to the cell that it is in, counted row by row; one past the last
/// column or row belongs to the last.
pub proof fn law_boids_have_a_home_in_the_grid(raw: (usize, usize), cols: usize, rows: usize)
    requires
        cols > 0,
        rows > 0,
    ensures
        0 <= home(raw.0, cols) < cols,
        raw.0 < cols ==> home(raw.0, cols) == raw.0,
        raw.0 >= cols ==> home(raw.0, cols) == cols - 1,
        raw.0 < cols && raw.1 < rows ==> home_cell(raw, cols, rows) == raw.1 * cols + raw.0,
        0 <= home_cell(raw, cols, rows) < cols * rows,
{
    let (x, y) = (home(raw.0, cols), home(raw.1, rows));
    assert(0 <= y * cols + x < cols * rows) by (nonlinear_arith)
        requires
            0 <= x < cols,
            0 <= y < rows,
    ;
}

} // verus!
