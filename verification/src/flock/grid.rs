//! The counting-sort spatial grid.
//!
//! The flock is sorted by grid cell, so that the boids around a cell lie in a
//! few contiguous spans. The sort runs in tasks: each counts the cells of its
//! own chunk, one pass combines the counts into write cursors, and each task
//! then scatters its chunk through its own cursors.

use vstd::prelude::*;

use crate::arith::{ceil_div, div_ceil, lemma_ceil_div, least, most};

verus! {

/// How many of the entries `lo .. hi` of `cells` are the cell `c`.
pub open spec fn count_eq(cells: Seq<u32>, lo: int, hi: int, c: int) -> int
    decreases hi - lo,
{
    if hi <= lo {
        0
    } else {
        count_eq(cells, lo, hi - 1, c) + (if cells[hi - 1] == c {
            1int
        } else {
            0int
        })
    }
}

/// How many of the first `n` entries of `cells` are cells before `c`.
pub open spec fn count_below(cells: Seq<u32>, n: int, c: int) -> int
    decreases n,
{
    if n <= 0 {
        0
    } else {
        count_below(cells, n - 1, c) + (if cells[n - 1] < c {
            1int
        } else {
            0int
        })
    }
}

/// Where the boid `i` stands after a stable sort by cell: behind every boid of
/// an earlier cell, and behind the earlier boids of its own cell.
pub open spec fn sorted_index(cells: Seq<u32>, i: int) -> int {
    count_below(cells, cells.len() as int, cells[i] as int) + count_eq(
        cells,
        0,
        i,
        cells[i] as int,
    )
}

/// Every entry names one of the first `ncells` cells.
pub open spec fn cells_in_range(cells: Seq<u32>, ncells: int) -> bool {
    forall|i: int| 0 <= i < cells.len() ==> (#[trigger] cells[i]) < ncells
}

/// The first boid of task `t` when `n` boids are cut into chunks.
pub open spec fn chunk_start(n: int, chunk: int, t: int) -> int {
    least(t * chunk, n)
}

proof fn lemma_count_eq_split(cells: Seq<u32>, lo: int, mid: int, hi: int, c: int)
    requires
        lo <= mid <= hi,
    ensures
        count_eq(cells, lo, hi, c) == count_eq(cells, lo, mid, c) + count_eq(cells, mid, hi, c),
    decreases hi - mid,
{
    if mid < hi {
        lemma_count_eq_split(cells, lo, mid, hi - 1, c);
    }
}

proof fn lemma_count_eq_bounds(cells: Seq<u32>, lo: int, hi: int, c: int)
    requires
        lo <= hi,
    ensures
        0 <= count_eq(cells, lo, hi, c) <= hi - lo,
    decreases hi - lo,
{
    if lo < hi {
        lemma_count_eq_bounds(cells, lo, hi - 1, c);
    }
}

proof fn lemma_count_below_step(cells: Seq<u32>, n: int, c: int)
    requires
        0 <= n,
    ensures
        count_below(cells, n, c + 1) == count_below(cells, n, c) + count_eq(cells, 0, n, c),
        0 <= count_below(cells, n, c) <= n,
    decreases n,
{
    if n > 0 {
        lemma_count_below_step(cells, n - 1, c);
    }
}

proof fn lemma_count_below_zero(cells: Seq<u32>, n: int)
    ensures
        count_below(cells, n, 0) == 0,
    decreases n,
{
    if n > 0 {
        lemma_count_below_zero(cells, n - 1);
    }
}

proof fn lemma_count_below_all(cells: Seq<u32>, n: int, c: int)
    requires
        0 <= n <= cells.len(),
        cells_in_range(cells, c),
    ensures
        count_below(cells, n, c) == n,
    decreases n,
{
    if n > 0 {
        lemma_count_below_all(cells, n - 1, c);
    }
}

/// Counts before a later cell are no smaller.
pub proof fn lemma_count_below_monotone(cells: Seq<u32>, n: int, c: int, d: int)
    requires
        0 <= n,
        c <= d,
    ensures
        count_below(cells, n, c) <= count_below(cells, n, d),
    decreases n,
{
    if n > 0 {
        lemma_count_below_monotone(cells, n - 1, c, d);
    }
}

/// A boid lands inside the slice of its own cell.
pub proof fn lemma_sorted_index_in_cell(cells: Seq<u32>, i: int)
    requires
        0 <= i < cells.len(),
    ensures
        count_below(cells, cells.len() as int, cells[i] as int) <= sorted_index(cells, i),
        sorted_index(cells, i) < count_below(cells, cells.len() as int, cells[i] + 1),
        0 <= sorted_index(cells, i) < cells.len(),
{
    let n = cells.len() as int;
    let c = cells[i] as int;
    lemma_count_below_step(cells, n, c);
    lemma_count_below_step(cells, n, c + 1);
    lemma_count_eq_split(cells, 0, i, n, c);
    lemma_count_eq_split(cells, i, i + 1, n, c);
    lemma_count_eq_bounds(cells, 0, i, c);
    lemma_count_eq_bounds(cells, i + 1, n, c);
    assert(count_eq(cells, i, i + 1, c) == count_eq(cells, i, i, c) + 1);
}

/// No two boids land on the same place: every place is written once.
pub proof fn lemma_sorted_index_injective(cells: Seq<u32>, i: int, j: int)
    requires
        0 <= i < cells.len(),
        0 <= j < cells.len(),
        i != j,
    ensures
        sorted_index(cells, i) != sorted_index(cells, j),
{
    let n = cells.len() as int;
    let (a, b) = (cells[i] as int, cells[j] as int);
    lemma_sorted_index_in_cell(cells, i);
    lemma_sorted_index_in_cell(cells, j);
    if a < b {
        lemma_count_below_monotone(cells, n, a + 1, b);
    } else if b < a {
        lemma_count_below_monotone(cells, n, b + 1, a);
    } else {
        let (lo, hi) = if i < j {
            (i, j)
        } else {
            (j, i)
        };
        lemma_count_eq_split(cells, 0, lo, hi, a);
        lemma_count_eq_split(cells, lo, lo + 1, hi, a);
        lemma_count_eq_bounds(cells, lo + 1, hi, a);
        assert(count_eq(cells, lo, lo + 1, a) == count_eq(cells, lo, lo, a) + 1);
    }
}

/// The sort is stable: boids of one cell keep their order.
pub proof fn law_sort_is_stable(cells: Seq<u32>, i: int, j: int)
    requires
        0 <= i < j < cells.len(),
        cells[i] == cells[j],
    ensures
        sorted_index(cells, i) < sorted_index(cells, j),
{
    let a = cells[i] as int;
    lemma_count_eq_split(cells, 0, i, j, a);
    lemma_count_eq_split(cells, i, i + 1, j, a);
    lemma_count_eq_bounds(cells, i + 1, j, a);
    assert(count_eq(cells, i, i + 1, a) == count_eq(cells, i, i, a) + 1);
}

/// The sort orders by cell: a boid of an earlier cell comes first.
pub proof fn law_sort_orders_cells(cells: Seq<u32>, i: int, j: int)
    requires
        0 <= i < cells.len(),
        0 <= j < cells.len(),
        cells[i] < cells[j],
    ensures
        sorted_index(cells, i) < sorted_index(cells, j),
{
    lemma_sorted_index_in_cell(cells, i);
    lemma_sorted_index_in_cell(cells, j);
    lemma_count_below_monotone(cells, cells.len() as int, cells[i] + 1, cells[j] as int);
}

/// Every place of the sorted flock is taken: some boid lands there.
pub proof fn law_sort_fills_every_place(cells: Seq<u32>, p: int)
    requires
        0 <= p < cells.len(),
    ensures
        exists|i: int| 0 <= i < cells.len() && #[trigger] sorted_index(cells, i) == p,
{
    let n = cells.len() as int;
    let places = vstd::set_lib::set_int_range(0, n);
    let f = |i: int| sorted_index(cells, i);
    let taken = places.map(f);
    vstd::set_lib::lemma_int_range(0, n);
    places.lemma_map_finite(f);
    assert forall|i: int, j: int| #[trigger]
        places.contains(i) && #[trigger] places.contains(j) && f(i) == f(j) implies i == j by {
        if i != j {
            lemma_sorted_index_injective(cells, i, j);
        }
    }
    assert forall|i: int| places.contains(i) implies taken.contains(f(i)) by {}
    assert forall|q: int| taken.contains(q) implies places.contains(q) by {
        let i = choose|i: int| places.contains(i) && q == f(i);
        lemma_sorted_index_in_cell(cells, i);
    }
    vstd::set_lib::lemma_map_size(places, taken, f);
    vstd::set_lib::lemma_subset_equality(taken, places);
    assert(taken.contains(p));
    let i = choose|i: int| places.contains(i) && p == f(i);
    assert(sorted_index(cells, i) == p);
}

/// The places between the starts of a cell and of the next hold the boids of
/// that cell and no others.
pub proof fn law_cell_slice_holds_its_boids(cells: Seq<u32>, c: int, i: int)
    requires
        0 <= i < cells.len(),
    ensures
        cells[i] == c <==> count_below(cells, cells.len() as int, c) <= sorted_index(cells, i)
            < count_below(cells, cells.len() as int, c + 1),
{
    let n = cells.len() as int;
    lemma_sorted_index_in_cell(cells, i);
    if cells[i] < c {
        lemma_count_below_monotone(cells, n, cells[i] + 1, c);
    } else if cells[i] > c {
        lemma_count_below_monotone(cells, n, c + 1, cells[i] as int);
    }
}

/// The place of cell `c` in the row of task `t` of the histograms.
pub open spec fn slot(t: int, c: int, ncells: int) -> int {
    t * ncells + c
}

proof fn lemma_slot(t: int, c: int, ncells: int, ntasks: int)
    requires
        0 <= t < ntasks,
        0 <= c < ncells,
    ensures
        0 <= slot(t, c, ncells) < ntasks * ncells,
        0 <= t * ncells <= slot(t, c, ncells),
{
    assert(0 <= t * ncells && t * ncells + c < ntasks * ncells) by (nonlinear_arith)
        requires
            0 <= t < ntasks,
            0 <= c < ncells,
    ;
}

proof fn lemma_slot_injective(t: int, c: int, u: int, d: int, ncells: int)
    requires
        0 <= c < ncells,
        0 <= d < ncells,
        slot(t, c, ncells) == slot(u, d, ncells),
    ensures
        t == u,
        c == d,
{
    assert(t == u) by (nonlinear_arith)
        requires
            0 <= c < ncells,
            0 <= d < ncells,
            t * ncells + c == u * ncells + d,
    ;
}

/// The chunks of the tasks before `t` end where the chunk of `t` begins.
proof fn lemma_chunk_start(n: int, chunk: int, t: int)
    requires
        0 <= n,
        0 < chunk,
        0 <= t,
    ensures
        0 <= chunk_start(n, chunk, t) <= chunk_start(n, chunk, t + 1) <= n,
        chunk_start(n, chunk, t + 1) <= chunk_start(n, chunk, t) + chunk,
        chunk_start(n, chunk, 0) == 0,
        t >= ceil_div(n, chunk) ==> chunk_start(n, chunk, t) == n,
{
    assert((t + 1) * chunk == t * chunk + chunk && 0 <= t * chunk) by (nonlinear_arith)
        requires
            0 <= t,
            0 < chunk,
    ;
    assert(0 * chunk == 0);
    if t >= ceil_div(n, chunk) {
        lemma_ceil_div(n, chunk);
        let q = ceil_div(n, chunk);
        assert(t * chunk >= q * chunk) by (nonlinear_arith)
            requires
                t >= q,
                chunk > 0,
        ;
    }
}

/// Each task's row counts the cells of its own chunk.
pub open spec fn rows_count_chunks(
    histo: Seq<u32>,
    cells: Seq<u32>,
    ncells: int,
    chunk: int,
    ntasks: int,
) -> bool {
    &&& histo.len() == ntasks * ncells
    &&& forall|t: int, c: int|
        0 <= t < ntasks && 0 <= c < ncells ==> histo[#[trigger] slot(t, c, ncells)] == count_eq(
            cells,
            chunk_start(cells.len() as int, chunk, t),
            chunk_start(cells.len() as int, chunk, t + 1),
            c,
        )
}

/// Each task's row holds its write cursors: where the first boid of its chunk
/// in each cell goes.
pub open spec fn rows_are_cursors(
    histo: Seq<u32>,
    cells: Seq<u32>,
    ncells: int,
    chunk: int,
    ntasks: int,
) -> bool {
    &&& histo.len() == ntasks * ncells
    &&& forall|t: int, c: int|
        0 <= t < ntasks && 0 <= c < ncells ==> histo[#[trigger] slot(t, c, ncells)] == count_below(
            cells,
            cells.len() as int,
            c,
        ) + count_eq(cells, 0, chunk_start(cells.len() as int, chunk, t), c)
}

/// The starts of the cells: how many boids lie in earlier cells, for each cell
/// and for the end.
pub open spec fn are_starts(starts: Seq<u32>, cells: Seq<u32>, ncells: int) -> bool {
    &&& starts.len() == ncells + 1
    &&& forall|c: int|
        0 <= c <= ncells ==> #[trigger] starts[c] == count_below(cells, cells.len() as int, c)
}

/// The last start is the size of the flock.
pub proof fn lemma_starts_end(starts: Seq<u32>, cells: Seq<u32>, ncells: int)
    requires
        are_starts(starts, cells, ncells),
        cells_in_range(cells, ncells),
        ncells >= 0,
    ensures
        starts[ncells] == cells.len(),
{
    lemma_count_below_all(cells, cells.len() as int, ncells);
}

/// Count the cells of every task's chunk into that task's row.
pub fn count_cells(cells: &Vec<u32>, ncells: usize, chunk: usize, ntasks: usize) -> (histo: Vec<u32>)
    requires
        chunk > 0,
        cells.len() <= u32::MAX,
        ntasks * ncells <= usize::MAX,
        ntasks * chunk <= usize::MAX,
        cells_in_range(cells@, ncells as int),
    ensures
        rows_count_chunks(histo@, cells@, ncells as int, chunk as int, ntasks as int),
{
    let n: usize = cells.len();
    let mut histo: Vec<u32> = Vec::new();
    let mut t: usize = 0;
    assert(0 * ncells == 0);
    while t < ntasks
        invariant
            t <= ntasks,
            n == cells.len(),
            n <= u32::MAX,
            chunk > 0,
            ntasks * ncells <= usize::MAX,
            ntasks * chunk <= usize::MAX,
            cells_in_range(cells@, ncells as int),
            rows_count_chunks(histo@, cells@, ncells as int, chunk as int, t as int),
        decreases ntasks - t,
    {
        let mut row: Vec<u32> = Vec::new();
        let mut k: usize = 0;
        assert(t * chunk + chunk <= ntasks * chunk) by (nonlinear_arith)
            requires
                t < ntasks,
        ;
        let lo: usize = if t * chunk < n {
            t * chunk
        } else {
            n
        };
        let hi: usize = if n - lo < chunk {
            n
        } else {
            lo + chunk
        };
        proof {
            lemma_chunk_start(n as int, chunk as int, t as int);
            assert((t + 1) * chunk == t * chunk + chunk) by (nonlinear_arith);
            assert(lo == chunk_start(n as int, chunk as int, t as int));
            assert(hi == chunk_start(n as int, chunk as int, t + 1));
        }
        while k < ncells
            invariant
                k <= ncells,
                row.len() == k,
                forall|c: int| 0 <= c < k ==> #[trigger] row[c] == 0,
            decreases ncells - k,
        {
            row.push(0);
            k += 1;
        }
        let mut i: usize = lo;
        while i < hi
            invariant
                lo <= i <= hi <= n,
                n == cells.len(),
                n <= u32::MAX,
                row.len() == ncells,
                cells_in_range(cells@, ncells as int),
                forall|c: int|
                    0 <= c < ncells ==> #[trigger] row[c] == count_eq(cells@, lo as int, i as int, c),
            decreases hi - i,
        {
            let c: usize = cells[i] as usize;
            proof {
                lemma_count_eq_bounds(cells@, lo as int, i as int, c as int);
            }
            row.set(c, row[c] + 1);
            i += 1;
        }
        let ghost before = histo@;
        let ghost filled = row@;
        histo.append(&mut row);
        proof {
            let nc = ncells as int;
            assert((t + 1) * nc == t * nc + nc) by (nonlinear_arith);
            assert forall|u: int, c: int| 0 <= u < t + 1 && 0 <= c < nc implies histo@[#[trigger] slot(
                u,
                c,
                nc,
            )] == count_eq(
                cells@,
                chunk_start(n as int, chunk as int, u),
                chunk_start(n as int, chunk as int, u + 1),
                c,
            ) by {
                if u < t {
                    lemma_slot(u, c, nc, t as int);
                    assert(histo@[slot(u, c, nc)] == before[slot(u, c, nc)]);
                } else {
                    assert(histo@[slot(u, c, nc)] == filled[c]);
                }
            }
        }
        t += 1;
    }
    histo
}

/// Turn the counts into write cursors and return the starts of the cells.
pub fn combine(
    cells: &Vec<u32>,
    histo: &mut Vec<u32>,
    ncells: usize,
    chunk: usize,
    ntasks: usize,
) -> (starts: Vec<u32>)
    requires
        chunk > 0,
        cells.len() <= u32::MAX,
        ncells < usize::MAX,
        ntasks >= ceil_div(cells.len() as int, chunk as int),
        ntasks * ncells <= usize::MAX,
        cells_in_range(cells@, ncells as int),
        rows_count_chunks(old(histo)@, cells@, ncells as int, chunk as int, ntasks as int),
    ensures
        are_starts(starts@, cells@, ncells as int),
        rows_are_cursors(final(histo)@, cells@, ncells as int, chunk as int, ntasks as int),
{
    let ghost counts = histo@;
    let ghost n = cells.len() as int;
    let ghost nc = ncells as int;
    let ghost ch = chunk as int;
    let mut starts: Vec<u32> = Vec::new();
    let mut running: u32 = 0;
    let mut c: usize = 0;
    proof {
        lemma_count_below_zero(cells@, n);
    }
    while c < ncells
        invariant
            c <= ncells,
            chunk > 0,
            n == cells.len() <= u32::MAX,
            nc == ncells,
            ch == chunk,
            ntasks >= ceil_div(n, ch),
            ntasks * ncells <= usize::MAX,
            cells_in_range(cells@, nc),
            rows_count_chunks(counts, cells@, nc, ch, ntasks as int),
            histo.len() == ntasks * nc,
            running == count_below(cells@, n, c as int),
            starts.len() == c,
            forall|d: int| 0 <= d < c ==> #[trigger] starts[d] == count_below(cells@, n, d),
            forall|t: int, d: int|
                0 <= t < ntasks && 0 <= d < c ==> histo@[#[trigger] slot(t, d, nc)] == count_below(
                    cells@,
                    n,
                    d,
                ) + count_eq(cells@, 0, chunk_start(n, ch, t), d),
            forall|t: int, d: int|
                0 <= t < ntasks && c <= d < nc ==> histo@[#[trigger] slot(t, d, nc)]
                    == counts[slot(t, d, nc)],
        decreases ncells - c,
    {
        starts.push(running);
        let mut t: usize = 0;
        proof {
            lemma_chunk_start(n, ch, 0);
            lemma_count_below_step(cells@, n, c as int);
        }
        while t < ntasks
            invariant
                t <= ntasks,
                c < ncells,
                chunk > 0,
                n == cells.len() <= u32::MAX,
                nc == ncells,
                ch == chunk,
                ntasks * ncells <= usize::MAX,
                rows_count_chunks(counts, cells@, nc, ch, ntasks as int),
                histo.len() == ntasks * nc,
                running == count_below(cells@, n, c as int) + count_eq(
                    cells@,
                    0,
                    chunk_start(n, ch, t as int),
                    c as int,
                ),
                count_below(cells@, n, c + 1) == count_below(cells@, n, c as int) + count_eq(
                    cells@,
                    0,
                    n,
                    c as int,
                ),
                forall|u: int, d: int|
                    0 <= u < ntasks && 0 <= d < c ==> histo@[#[trigger] slot(u, d, nc)]
                        == count_below(cells@, n, d) + count_eq(
                        cells@,
                        0,
                        chunk_start(n, ch, u),
                        d,
                    ),
                forall|u: int|
                    0 <= u < t ==> histo@[#[trigger] slot(u, c as int, nc)] == count_below(
                        cells@,
                        n,
                        c as int,
                    ) + count_eq(cells@, 0, chunk_start(n, ch, u), c as int),
                forall|u: int, d: int|
                    0 <= u < ntasks && c < d < nc ==> histo@[#[trigger] slot(u, d, nc)]
                        == counts[slot(u, d, nc)],
                forall|u: int|
                    t <= u < ntasks ==> histo@[#[trigger] slot(u, c as int, nc)] == counts[slot(
                        u,
                        c as int,
                        nc,
                    )],
            decreases ntasks - t,
        {
            proof {
                lemma_slot(t as int, c as int, nc, ntasks as int);
            }
            let at: usize = t * ncells + c;
            assert(at == slot(t as int, c as int, nc));
            let count: u32 = histo[at];
            let ghost prior = histo@;
            histo.set(at, running);
            proof {
                let here = chunk_start(n, ch, t as int);
                let next = chunk_start(n, ch, t + 1);
                lemma_chunk_start(n, ch, t as int);
                lemma_count_eq_split(cells@, 0, here, next, c as int);
                lemma_count_eq_split(cells@, 0, next, n, c as int);
                lemma_count_eq_bounds(cells@, next, n, c as int);
                lemma_count_below_step(cells@, n, c + 1);
                assert forall|u: int, d: int|
                    0 <= u < ntasks && 0 <= d < nc && (u != t || d != c) implies histo@[#[trigger] slot(
                    u,
                    d,
                    nc,
                )] == prior[slot(u, d, nc)] by {
                    lemma_slot(u, d, nc, ntasks as int);
                    if slot(u, d, nc) == at {
                        lemma_slot_injective(u, d, t as int, c as int, nc);
                    }
                }
            }
            running = running + count;
            t += 1;
        }
        proof {
            lemma_chunk_start(n, ch, ntasks as int);
        }
        c += 1;
    }
    starts.push(running);
    starts
}

/// `sorted` holds every boid of `items` at its place in cell order.
pub open spec fn is_cell_sorted<T>(sorted: Seq<T>, items: Seq<T>, cells: Seq<u32>) -> bool {
    &&& sorted.len() == items.len()
    &&& forall|i: int|
        0 <= i < items.len() ==> sorted[#[trigger] sorted_index(cells, i)] == items[i]
}

/// Move every task's boids to the places that its cursors name.
pub fn scatter<T: Copy>(
    items: &Vec<T>,
    cells: &Vec<u32>,
    histo: &mut Vec<u32>,
    ncells: usize,
    chunk: usize,
    ntasks: usize,
) -> (sorted: Vec<T>)
    requires
        chunk > 0,
        items.len() == cells.len(),
        cells.len() <= u32::MAX,
        ntasks >= ceil_div(cells.len() as int, chunk as int),
        ntasks * ncells <= usize::MAX,
        ntasks * chunk <= usize::MAX,
        cells_in_range(cells@, ncells as int),
        rows_are_cursors(old(histo)@, cells@, ncells as int, chunk as int, ntasks as int),
    ensures
        is_cell_sorted(sorted@, items@, cells@),
        final(histo).len() == old(histo).len(),
{
    let n: usize = items.len();
    let ghost cursors = histo@;
    let ghost nc = ncells as int;
    let ghost ch = chunk as int;
    let mut sorted: Vec<T> = Vec::new();
    let mut k: usize = 0;
    while k < n
        invariant
            k <= n,
            n == items.len(),
            sorted.len() == k,
        decreases n - k,
    {
        sorted.push(items[k]);
        k += 1;
    }
    let mut t: usize = 0;
    proof {
        lemma_chunk_start(n as int, ch, 0);
    }
    while t < ntasks
        invariant
            t <= ntasks,
            n == items.len() == cells.len() == sorted.len(),
            n <= u32::MAX,
            nc == ncells,
            ch == chunk,
            chunk > 0,
            ntasks * ncells <= usize::MAX,
            ntasks * chunk <= usize::MAX,
            cells_in_range(cells@, nc),
            rows_are_cursors(cursors, cells@, nc, ch, ntasks as int),
            histo.len() == ntasks * nc,
            histo.len() == cursors.len(),
            forall|u: int, d: int|
                t <= u < ntasks && 0 <= d < nc ==> histo@[#[trigger] slot(u, d, nc)]
                    == cursors[slot(u, d, nc)],
            forall|j: int|
                0 <= j < chunk_start(n as int, ch, t as int) ==> sorted@[#[trigger] sorted_index(
                    cells@,
                    j,
                )] == items@[j],
        decreases ntasks - t,
    {
        assert(t * chunk + chunk <= ntasks * chunk) by (nonlinear_arith)
            requires
                t < ntasks,
        ;
        let lo: usize = if t * chunk < n {
            t * chunk
        } else {
            n
        };
        let hi: usize = if n - lo < chunk {
            n
        } else {
            lo + chunk
        };
        proof {
            lemma_chunk_start(n as int, ch, t as int);
            assert((t + 1) * chunk == t * chunk + chunk) by (nonlinear_arith);
        }
        let mut i: usize = lo;
        while i < hi
            invariant
                t < ntasks,
                lo == chunk_start(n as int, ch, t as int),
                hi == chunk_start(n as int, ch, t + 1),
                lo <= i <= hi <= n,
                n == items.len() == cells.len() == sorted.len(),
                n <= u32::MAX,
                nc == ncells,
                ntasks * ncells <= usize::MAX,
                cells_in_range(cells@, nc),
                histo.len() == ntasks * nc,
                histo.len() == cursors.len(),
                forall|u: int, d: int|
                    t < u < ntasks && 0 <= d < nc ==> histo@[#[trigger] slot(u, d, nc)]
                        == cursors[slot(u, d, nc)],
                forall|d: int|
                    0 <= d < nc ==> histo@[#[trigger] slot(t as int, d, nc)] == count_below(
                        cells@,
                        n as int,
                        d,
                    ) + count_eq(cells@, 0, i as int, d),
                forall|j: int|
                    0 <= j < i ==> sorted@[#[trigger] sorted_index(cells@, j)] == items@[j],
            decreases hi - i,
        {
            let c: usize = cells[i] as usize;
            proof {
                lemma_slot(t as int, c as int, nc, ntasks as int);
                lemma_sorted_index_in_cell(cells@, i as int);
            }
            let at: usize = t * ncells + c;
            assert(at == slot(t as int, c as int, nc));
            let dst: usize = histo[at] as usize;
            assert(dst == sorted_index(cells@, i as int));
            let ghost prior = histo@;
            histo.set(at, dst as u32 + 1);
            proof {
                assert forall|u: int, d: int|
                    0 <= u < ntasks && 0 <= d < nc && (u != t || d != c) implies histo@[#[trigger] slot(
                    u,
                    d,
                    nc,
                )] == prior[slot(u, d, nc)] by {
                    lemma_slot(u, d, nc, ntasks as int);
                    if slot(u, d, nc) == at {
                        lemma_slot_injective(u, d, t as int, c as int, nc);
                    }
                }
            }
            let ghost placed = sorted@;
            sorted.set(dst, items[i]);
            proof {
                assert forall|j: int| 0 <= j < i + 1 implies sorted@[#[trigger] sorted_index(
                    cells@,
                    j,
                )] == items@[j] by {
                    if j < i {
                        lemma_sorted_index_injective(cells@, i as int, j);
                        lemma_sorted_index_in_cell(cells@, j);
                    }
                }
            }
            i += 1;
        }
        t += 1;
    }
    proof {
        lemma_chunk_start(n as int, ch, ntasks as int);
    }
    sorted
}

/// The flock sorted by grid cell.
pub struct FlockGrid<T> {
    /// The cell of every boid, in the order before the sort.
    pub cell_of: Vec<u32>,
    /// Cell `c` holds `sorted[starts[c] .. starts[c + 1]]`.
    pub starts: Vec<u32>,
    /// The boids in cell order.
    pub sorted: Vec<T>,
}

impl<T> FlockGrid<T> {
    /// The starts are the prefix sums of the cell counts, and there are as many
    /// sorted boids as cells were given.
    pub open spec fn wf(&self, ncells: int) -> bool {
        &&& cells_in_range(self.cell_of@, ncells)
        &&& are_starts(self.starts@, self.cell_of@, ncells)
        &&& self.sorted.len() == self.cell_of.len()
        &&& self.sorted.len() <= u32::MAX
    }
}

impl<T: Copy> FlockGrid<T> {
    /// Sort `items` by cell, in tasks of `sort_chunk` boids.
    pub fn rebuild(
        items: &Vec<T>,
        cell_of: Vec<u32>,
        ncells: usize,
        sort_chunk: usize,
    ) -> (grid: FlockGrid<T>)
        requires
            sort_chunk > 0,
            items.len() == cell_of.len(),
            items.len() <= u32::MAX,
            items.len() + sort_chunk <= usize::MAX,
            ncells < usize::MAX,
            cells_in_range(cell_of@, ncells as int),
            most(ceil_div(items.len() as int, sort_chunk as int), 1) * ncells <= usize::MAX,
        ensures
            grid.cell_of == cell_of,
            grid.wf(ncells as int),
            is_cell_sorted(grid.sorted@, items@, cell_of@),
    {
        let n: usize = items.len();
        let needed: usize = div_ceil(n, sort_chunk);
        let ntasks: usize = if needed < 1 {
            1
        } else {
            needed
        };
        proof {
            lemma_ceil_div(n as int, sort_chunk as int);
            if n > 0 {
                assert(ntasks * sort_chunk == (ntasks - 1) * sort_chunk + sort_chunk)
                    by (nonlinear_arith);
            }
        }
        let mut histo: Vec<u32> = count_cells(&cell_of, ncells, sort_chunk, ntasks);
        let starts: Vec<u32> = combine(&cell_of, &mut histo, ncells, sort_chunk, ntasks);
        let sorted: Vec<T> = scatter(items, &cell_of, &mut histo, ncells, sort_chunk, ntasks);
        FlockGrid { cell_of, starts, sorted }
    }
}

/// The sorted flock is a rearrangement of the flock: both hold the same boids
/// equally often.
pub proof fn law_sort_is_a_permutation<T>(sorted: Seq<T>, items: Seq<T>, cells: Seq<u32>)
    requires
        items.len() == cells.len(),
        is_cell_sorted(sorted, items, cells),
    ensures
        sorted.to_multiset() == items.to_multiset(),
{
    let n = items.len() as int;
    let order = Seq::new(n as nat, |i: int| sorted_index(cells, i));
    assert forall|i: int| 0 <= i < n implies 0 <= #[trigger] order[i] < n by {
        lemma_sorted_index_in_cell(cells, i);
    }
    assert(order.no_duplicates()) by {
        assert forall|i: int, j: int| 0 <= i < n && 0 <= j < n && i != j implies order[i]
            != order[j] by {
            lemma_sorted_index_injective(cells, i, j);
        }
    }
    lemma_reindexed_multiset(sorted, items, order);
}

/// A sequence read through distinct indices into all of another holds the same
/// elements equally often.
proof fn lemma_reindexed_multiset<T>(whole: Seq<T>, picked: Seq<T>, order: Seq<int>)
    requires
        whole.len() == picked.len() == order.len(),
        order.no_duplicates(),
        forall|i: int| 0 <= i < order.len() ==> 0 <= #[trigger] order[i] < whole.len(),
        forall|i: int| 0 <= i < order.len() ==> whole[#[trigger] order[i]] == picked[i],
    ensures
        whole.to_multiset() == picked.to_multiset(),
    decreases whole.len(),
{
    broadcast use vstd::seq_lib::group_to_multiset_ensures;

    if whole.len() == 0 {
        assert(whole =~= picked);
    } else {
        let last = picked.len() - 1;
        let at = order[last];
        let rest = whole.remove(at);
        let fewer = Seq::new(
            last as nat,
            |i: int|
                if order[i] > at {
                    order[i] - 1
                } else {
                    order[i]
                },
        );
        let head = picked.drop_last();
        assert forall|i: int| 0 <= i < last implies 0 <= #[trigger] fewer[i] < rest.len()
            && rest[fewer[i]] == head[i] by {
            assert(order[i] != order[last]);
            assert(whole[order[i]] == picked[i]);
        }
        assert forall|i: int, j: int| 0 <= i < last && 0 <= j < last && i != j implies fewer[i]
            != fewer[j] by {
            assert(order[i] != order[j]);
            assert(order[i] != at && order[j] != at);
        }
        lemma_reindexed_multiset(rest, head, fewer);
        assert(picked =~= head.push(picked[last]));
        assert(whole =~= rest.insert(at, whole[at]));
        assert(rest.to_multiset() == whole.to_multiset().remove(whole[at]));
        assert(picked.to_multiset() == head.to_multiset().insert(picked[last]));
        assert(whole[at] == picked[last]);
        assert(whole.to_multiset().count(whole[at]) > 0) by {
            assert(whole.contains(whole[at]));
        }
        assert(whole.to_multiset() =~= rest.to_multiset().insert(whole[at]));
    }
}

} // verus!
