//! How the parallel passes over the flock are cut into chunks.

use vstd::prelude::*;

use crate::arith::{
    clamped, lemma_power_of_two_above, next_power_of_two, power_of_two_above, power_of_two_from,
};

verus! {

/// The fewest boids one steering chunk holds: below this, starting a task
/// costs more than it saves.
pub const MIN_STEER_CHUNK: usize = 1024;

/// The most boids one steering chunk holds.
pub const MAX_STEER_CHUNK: usize = 65_536;

/// Steering chunks per worker: enough slack for a work-stealing pool to
/// balance dense and sparse parts of the flock.
pub const CHUNKS_PER_WORKER: usize = 12;

/// The power of two nearest to `x`, the larger one where two are as near; zero
/// for zero.
pub open spec fn nearest_power_of_two(x: int) -> int {
    let up = power_of_two_above(x);
    let below = if x < up / 2 {
        0
    } else {
        x - up / 2
    };
    if up - x <= below {
        up
    } else {
        up / 2
    }
}

/// The boids per worker chunk that `n` boids on `threads` workers would
/// ideally have.
pub open spec fn ideal_chunk(n: int, threads: int) -> int {
    n / ((if threads < 1 {
        1
    } else {
        threads
    }) * CHUNKS_PER_WORKER)
}

/// The boids per steering chunk: the power of two nearest to the ideal, between
/// the two limits.
pub open spec fn steer_size(n: int, threads: int) -> int {
    clamped(
        nearest_power_of_two(ideal_chunk(n, threads)),
        MIN_STEER_CHUNK as int,
        MAX_STEER_CHUNK as int,
    )
}

/// Chunk sizes `(sort, steer)` for the parallel passes over `n` boids on a
/// pool of `threads` workers: about a dozen steering chunks per worker, as the
/// nearest power of two between the two limits, and sort chunks four times as
/// big, so that the serial combine stays short.
pub fn chunk_sizes(n: usize, threads: usize) -> (sizes: (usize, usize))
    requires
        threads <= usize::MAX / CHUNKS_PER_WORKER,
    ensures
        sizes.1 == steer_size(n as int, threads as int),
        sizes.0 == 4 * sizes.1,
{
    let workers: usize = if threads < 1 {
        1
    } else {
        threads
    };
    let share: usize = workers * CHUNKS_PER_WORKER;
    let ideal: usize = n / share;
    assert(ideal <= n / 12) by (nonlinear_arith)
        requires
            ideal == n as int / share as int,
            share >= 12,
            n >= 0,
    ;
    let up: usize = next_power_of_two(ideal);
    proof {
        lemma_power_of_two_above(ideal as int, 1);
    }
    let below: usize = if ideal < up / 2 {
        0
    } else {
        ideal - up / 2
    };
    let nearest: usize = if up - ideal <= below {
        up
    } else {
        up / 2
    };
    let steer: usize = if nearest < MIN_STEER_CHUNK {
        MIN_STEER_CHUNK
    } else if nearest > MAX_STEER_CHUNK {
        MAX_STEER_CHUNK
    } else {
        nearest
    };
    (steer * 4, steer)
}

/// Of two powers of two, the larger is at least twice the smaller.
proof fn lemma_powers_apart(x: int, y: int, p: int)
    requires
        x <= y,
        p >= 1,
    ensures
        power_of_two_from(x, p) == power_of_two_from(y, p) || 2 * power_of_two_from(x, p)
            <= power_of_two_from(y, p),
    decreases 2 * y - p,
{
    if p < y {
        if p < x {
            lemma_powers_apart(x, y, p * 2);
        } else {
            lemma_power_of_two_above(y, p * 2);
        }
    }
}

proof fn lemma_nearest_power_rises(x: int, y: int)
    requires
        0 <= x <= y,
    ensures
        nearest_power_of_two(x) <= nearest_power_of_two(y),
{
    lemma_power_of_two_above(x, 1);
    lemma_power_of_two_above(y, 1);
    lemma_powers_apart(x, y, 1);
}

/// A larger pool never gets larger chunks.
pub proof fn law_larger_pools_get_no_larger_chunks(n: int, threads: int, more: int)
    requires
        n >= 0,
        threads <= more,
    ensures
        steer_size(n, more) <= steer_size(n, threads),
{
    let few = if threads < 1 {
        1
    } else {
        threads
    };
    let many = if more < 1 {
        1
    } else {
        more
    };
    vstd::arithmetic::div_mod::lemma_div_is_ordered_by_denominator(
        n,
        few * CHUNKS_PER_WORKER,
        many * CHUNKS_PER_WORKER,
    );
    vstd::arithmetic::div_mod::lemma_div_pos_is_pos(n, many * CHUNKS_PER_WORKER);
    lemma_nearest_power_rises(ideal_chunk(n, more), ideal_chunk(n, threads));
}

/// `p` is a power of two.
pub open spec fn is_power_of_two(p: int) -> bool
    decreases p,
{
    p == 1 || (p > 1 && p % 2 == 0 && is_power_of_two(p / 2))
}

proof fn lemma_power_from(x: int, p: int)
    requires
        p > 0,
        is_power_of_two(p),
    ensures
        is_power_of_two(power_of_two_from(x, p)),
    decreases 2 * x - p,
{
    if p < x {
        assert((p * 2) / 2 == p && (p * 2) % 2 == 0);
        lemma_power_from(x, p * 2);
    }
}

/// Sizes go to the nearest power of two: it lies at no more than four thirds of
/// the size and above two thirds of it, so that no other one is nearer, and of two
/// as near the larger is taken.
pub proof fn law_sizes_go_to_the_nearest_power(x: int)
    requires
        x >= 1,
    ensures
        ({
            let p = nearest_power_of_two(x);
            &&& is_power_of_two(p)
            &&& 3 * p <= 4 * x < 6 * p
        }),
{
    lemma_power_of_two_above(x, 1);
    lemma_power_from(x, 1);
    let up = power_of_two_above(x);
    assert(is_power_of_two(up));
    if up > 1 {
        assert(up % 2 == 0);
        assert(is_power_of_two(up / 2));
    }
}

/// Each worker gets about twelve chunks, none below a thousand and twenty-four
/// boids or above sixty-four times as many.
pub proof fn law_workers_get_a_dozen_chunks(n: int, threads: int)
    requires
        n >= 0,
        threads >= 1,
    ensures
        ideal_chunk(n, threads) * (12 * threads) <= n < (ideal_chunk(n, threads) + 1) * (12
            * threads),
        1024 <= steer_size(n, threads) <= 65_536,
        ideal_chunk(n, 0) == ideal_chunk(n, 1),
        1024 <= nearest_power_of_two(ideal_chunk(n, threads)) <= 65_536 ==> steer_size(n, threads)
            == nearest_power_of_two(ideal_chunk(n, threads)),
{
    let d = threads * 12;
    let q = n / d;
    assert(q * d <= n < (q + 1) * d) by (nonlinear_arith)
        requires
            q == n / d,
            d >= 1,
    ;
    assert(ideal_chunk(n, threads) == q);
    assert(12 * threads == d);
}

} // verus!
