//! How a boid's candidates are gone through: four at a time, and the rest of
//! each run one by one.

use vstd::prelude::*;

use crate::flock::sim::runs_in_bounds;
use crate::oracle::{answer2, answered2, lemma_answer2, single_valued2};

verus! {

/// Four candidates at a time.
pub type Quad<B> = (B, B, B, B);

/// The four boids at a place of the sorted flock.
pub open spec fn quad_at<B>(sorted: Seq<B>, at: int) -> Quad<B> {
    (sorted[at], sorted[at + 1], sorted[at + 2], sorted[at + 3])
}

/// What the first `k` quads from place `s` on add to a sum.
pub open spec fn quads_added<B, A, Q: Fn(A, Quad<B>) -> A>(
    sorted: Seq<B>,
    s: int,
    sum: A,
    quad: Q,
    k: int,
) -> A
    decreases k,
{
    if k <= 0 {
        sum
    } else {
        answer2(
            quad,
            quads_added(sorted, s, sum, quad, k - 1),
            quad_at(sorted, s + 4 * (k - 1)),
        )
    }
}

/// What the `k` boids from place `s` on add to a sum, one by one.
pub open spec fn singles_added<B, A, O: Fn(A, B) -> A>(
    sorted: Seq<B>,
    s: int,
    sum: A,
    single: O,
    k: int,
) -> A
    decreases k,
{
    if k <= 0 {
        sum
    } else {
        answer2(single, singles_added(sorted, s, sum, single, k - 1), sorted[s + k - 1])
    }
}

/// The sums of the first `k` quads are answers that `quad` gave.
pub open spec fn quads_made<B, A, Q: Fn(A, Quad<B>) -> A>(
    sorted: Seq<B>,
    s: int,
    sum: A,
    quad: Q,
    k: int,
) -> bool {
    forall|i: int|
        0 <= i < k ==> answered2(
            quad,
            #[trigger] quads_added(sorted, s, sum, quad, i),
            quad_at(sorted, s + 4 * i),
        )
}

/// The sums of the `k` boids are answers that `single` gave.
pub open spec fn singles_made<B, A, O: Fn(A, B) -> A>(
    sorted: Seq<B>,
    s: int,
    sum: A,
    single: O,
    k: int,
) -> bool {
    forall|i: int|
        0 <= i < k ==> answered2(
            single,
            #[trigger] singles_added(sorted, s, sum, single, i),
            sorted[s + i],
        )
}

/// The quads of a run.
pub open spec fn quad_count(run: (usize, usize)) -> int {
    (run.1 - run.0) / 4
}

/// The sums after the first `k` runs.
pub open spec fn runs_added<B, A, C, Q: Fn(A, Quad<B>) -> A, O: Fn(C, B) -> C>(
    sorted: Seq<B>,
    runs: Seq<(usize, usize)>,
    four: A,
    one: C,
    quad: Q,
    single: O,
    k: int,
) -> (A, C)
    decreases k,
{
    if k <= 0 {
        (four, one)
    } else {
        let (a, c) = runs_added(sorted, runs, four, one, quad, single, k - 1);
        let (s, e) = runs[k - 1];
        let n = quad_count(runs[k - 1]);
        (
            quads_added(sorted, s as int, a, quad, n),
            singles_added(sorted, s + 4 * n, c, single, (e - s) % 4),
        )
    }
}

/// The sums of the first `k` runs are answers that the kernels gave.
pub open spec fn runs_made<B, A, C, Q: Fn(A, Quad<B>) -> A, O: Fn(C, B) -> C>(
    sorted: Seq<B>,
    runs: Seq<(usize, usize)>,
    four: A,
    one: C,
    quad: Q,
    single: O,
    k: int,
) -> bool
    decreases k,
{
    k > 0 ==> {
        let (a, c) = runs_added(sorted, runs, four, one, quad, single, k - 1);
        let (s, e) = runs[k - 1];
        let n = quad_count(runs[k - 1]);
        &&& runs_made(sorted, runs, four, one, quad, single, k - 1)
        &&& quads_made(sorted, s as int, a, quad, n)
        &&& singles_made(sorted, s + 4 * n, c, single, (e - s) % 4)
    }
}

/// Go through the candidates of a boid: `quad` adds four at a time to one sum,
/// `single` the rest of each run to another, and `close` makes the result of
/// both.
pub fn neighbour_rules<
    B: Copy,
    A,
    C,
    R,
    Q: Fn(A, Quad<B>) -> A,
    O: Fn(C, B) -> C,
    E: Fn(A, C) -> R,
>(
    sorted: &Vec<B>,
    runs: &Vec<(usize, usize)>,
    four: A,
    one: C,
    quad: &Q,
    single: &O,
    close: &E,
) -> (sums: R)
    requires
        runs_in_bounds(runs@, sorted.len() as int),
        single_valued2(*quad),
        single_valued2(*single),
        single_valued2(*close),
        forall|a: A, q: Quad<B>| quad.requires((a, q)),
        forall|c: C, b: B| single.requires((c, b)),
        forall|a: A, c: C| close.requires((a, c)),
    ensures
        ({
            let (a, c) = runs_added(
                sorted@,
                runs@,
                four,
                one,
                *quad,
                *single,
                runs.len() as int,
            );
            &&& sums == answer2(*close, a, c)
            &&& close.ensures((a, c), sums)
        }),
        runs_made(sorted@, runs@, four, one, *quad, *single, runs.len() as int),
{
    let mut a: A = four;
    let mut c: C = one;
    let mut k: usize = 0;
    while k < runs.len()
        invariant
            k <= runs.len(),
            runs_in_bounds(runs@, sorted.len() as int),
            single_valued2(*quad),
            single_valued2(*single),
            forall|x: A, q: Quad<B>| quad.requires((x, q)),
            forall|x: C, b: B| single.requires((x, b)),
            (a, c) == runs_added(sorted@, runs@, four, one, *quad, *single, k as int),
            runs_made(sorted@, runs@, four, one, *quad, *single, k as int),
        decreases runs.len() - k,
    {
        let (s, e) = runs[k];
        assert(runs[k as int].0 <= runs[k as int].1 <= sorted.len());
        let ghost (a0, c0) = (a, c);
        let n: usize = (e - s) / 4;
        let mut i: usize = 0;
        while i < n
            invariant
                i <= n,
                n == (e - s) / 4,
                s <= e <= sorted.len(),
                single_valued2(*quad),
                forall|x: A, q: Quad<B>| quad.requires((x, q)),
                a == quads_added(sorted@, s as int, a0, *quad, i as int),
                quads_made(sorted@, s as int, a0, *quad, i as int),
            decreases n - i,
        {
            let at: usize = s + 4 * i;
            let lanes: Quad<B> = (sorted[at], sorted[at + 1], sorted[at + 2], sorted[at + 3]);
            let ghost before = a;
            a = quad(a, lanes);
            proof {
                lemma_answer2(*quad, before, lanes, a);
            }
            i += 1;
        }
        let from: usize = s + 4 * n;
        let rest: usize = e - from;
        let mut j: usize = 0;
        while j < rest
            invariant
                j <= rest,
                from + rest == e,
                e <= sorted.len(),
                single_valued2(*single),
                forall|x: C, b: B| single.requires((x, b)),
                c == singles_added(sorted@, from as int, c0, *single, j as int),
                singles_made(sorted@, from as int, c0, *single, j as int),
            decreases rest - j,
        {
            let ghost before = c;
            c = single(c, sorted[from + j]);
            proof {
                lemma_answer2(*single, before, sorted[from + j], c);
            }
            j += 1;
        }
        k += 1;
    }
    let ghost (a1, c1) = (a, c);
    let sums: R = close(a, c);
    proof {
        lemma_answer2(*close, a1, c1, sums);
    }
    sums
}

/// Every candidate of a run is gone through once: it is one lane of one quad, or
/// one of the rest.
pub proof fn law_candidates_are_taken_once(run: (usize, usize), j: int)
    requires
        run.0 <= j < run.1,
    ensures
        ({
            let n = quad_count(run);
            let quad = (j - run.0) / 4;
            let lane = (j - run.0) % 4;
            let rest = j - (run.0 + 4 * n);
            &&& run.0 + 4 * quad + lane == j
            &&& 0 <= lane < 4
            &&& (quad < n <==> !(0 <= rest))
            &&& rest < (run.1 - run.0) % 4
            &&& run.0 + 4 * n + (run.1 - run.0) % 4 == run.1
        }),
{
}

/// The sums go over each run once and in order: whatever list the kernels keep of
/// the boids they are given, a run adds its whole fours, from its start on, to the
/// one list and the rest, up to its end, to the other, and leaves none out.
pub proof fn law_runs_are_visited_once<B, A, C, Q: Fn(A, Quad<B>) -> A, O: Fn(C, B) -> C>(
    sorted: Seq<B>,
    runs: Seq<(usize, usize)>,
    four: A,
    one: C,
    quad: Q,
    single: O,
    fours: spec_fn(A) -> Seq<B>,
    ones: spec_fn(C) -> Seq<B>,
    k: int,
)
    requires
        0 <= k < runs.len(),
        runs[k].0 <= runs[k].1 <= sorted.len(),
        forall|a: A, q: Quad<B>| #[trigger]
            fours(answer2(quad, a, q)) == fours(a) + seq![q.0, q.1, q.2, q.3],
        forall|c: C, b: B| #[trigger] ones(answer2(single, c, b)) == ones(c) + seq![b],
    ensures
        ({
            let before = runs_added(sorted, runs, four, one, quad, single, k);
            let after = runs_added(sorted, runs, four, one, quad, single, k + 1);
            let (s, e) = (runs[k].0 as int, runs[k].1 as int);
            let m = e - (e - s) % 4;
            &&& s <= m <= e
            &&& fours(after.0) == fours(before.0) + sorted.subrange(s, m)
            &&& ones(after.1) == ones(before.1) + sorted.subrange(m, e)
        }),
{
    let before = runs_added(sorted, runs, four, one, quad, single, k);
    let (s, e) = (runs[k].0 as int, runs[k].1 as int);
    let n = quad_count(runs[k]);
    let m = e - (e - s) % 4;
    assert(s + 4 * n == m);
    lemma_fours_visited(sorted, s, before.0, quad, fours, n);
    lemma_ones_visited(sorted, m, before.1, single, ones, (e - s) % 4);
}

proof fn lemma_fours_visited<B, A, Q: Fn(A, Quad<B>) -> A>(
    sorted: Seq<B>,
    s: int,
    sum: A,
    quad: Q,
    fours: spec_fn(A) -> Seq<B>,
    k: int,
)
    requires
        0 <= k,
        0 <= s,
        s + 4 * k <= sorted.len(),
        forall|a: A, q: Quad<B>| #[trigger]
            fours(answer2(quad, a, q)) == fours(a) + seq![q.0, q.1, q.2, q.3],
    ensures
        fours(quads_added(sorted, s, sum, quad, k)) == fours(sum) + sorted.subrange(s, s + 4 * k),
    decreases k,
{
    let all = fours(quads_added(sorted, s, sum, quad, k));
    if k > 0 {
        lemma_fours_visited(sorted, s, sum, quad, fours, k - 1);
        let q = quad_at(sorted, s + 4 * (k - 1));
        let done = quads_added(sorted, s, sum, quad, k - 1);
        assert(all == fours(done) + seq![q.0, q.1, q.2, q.3]);
    }
    assert(all =~= fours(sum) + sorted.subrange(s, s + 4 * k));
}

proof fn lemma_ones_visited<B, C, O: Fn(C, B) -> C>(
    sorted: Seq<B>,
    s: int,
    sum: C,
    single: O,
    ones: spec_fn(C) -> Seq<B>,
    k: int,
)
    requires
        0 <= k,
        0 <= s,
        s + k <= sorted.len(),
        forall|c: C, b: B| #[trigger] ones(answer2(single, c, b)) == ones(c) + seq![b],
    ensures
        ones(singles_added(sorted, s, sum, single, k)) == ones(sum) + sorted.subrange(s, s + k),
    decreases k,
{
    let all = ones(singles_added(sorted, s, sum, single, k));
    if k > 0 {
        lemma_ones_visited(sorted, s, sum, single, ones, k - 1);
        let done = singles_added(sorted, s, sum, single, k - 1);
        assert(all == ones(done) + seq![sorted[s + k - 1]]);
    }
    assert(all =~= ones(sum) + sorted.subrange(s, s + k));
}

} // verus!
