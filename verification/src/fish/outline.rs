//! From a few shape points to a smooth outline with few corners: spline,
//! then drop points that lie too close, then merge straight-ish runs.

use vstd::prelude::*;

use crate::arith::least;
use crate::oracle::{
    answer1, answer2, answered1, answered2, lemma_answer1, lemma_answer2, single_valued1,
    single_valued2, single_valued3,
};

verus! {

/// The left side followed by the right side backwards.
pub fn join_sides<P: Copy>(left: &Vec<P>, right: &Vec<P>) -> (shape: Vec<P>)
    ensures
        shape@ == left@ + right@.reverse(),
{
    let mut shape: Vec<P> = Vec::new();
    let mut i: usize = 0;
    while i < left.len()
        invariant
            i <= left.len(),
            shape@ == left@.take(i as int),
        decreases left.len() - i,
    {
        shape.push(left[i]);
        i += 1;
        assert(shape@ =~= left@.take(i as int));
    }
    let n: usize = right.len();
    let mut k: usize = 0;
    assert(shape@ =~= left@ + right@.reverse().take(0));
    while k < n
        invariant
            k <= n,
            n == right.len(),
            shape@ == left@ + right@.reverse().take(k as int),
        decreases n - k,
    {
        shape.push(right[n - 1 - k]);
        k += 1;
        assert(shape@ =~= left@ + right@.reverse().take(k as int));
    }
    assert(right@.reverse().take(k as int) =~= right@.reverse());
    shape
}

// ---------------------------------------------------------------------------
// Splines.

/// A segment of the shape with its neighbours.
#[derive(Clone, Copy)]
pub struct Segment<P> {
    pub before: Option<P>,
    pub start: P,
    pub end: P,
    pub after: Option<P>,
}

/// What a segment of the spline gives.
#[derive(Clone, Copy, Debug, PartialEq, Eq, Structural)]
pub enum Sampling {
    /// Nothing: two of its points coincide.
    Nothing,
    /// Its start: it is straight.
    Start,
    /// So many samples, and its end where they stop short of it.
    Samples(usize, bool),
}

/// The segment from point `i` to the next.
pub open spec fn segment_at<P>(points: Seq<P>, i: int) -> Segment<P> {
    Segment {
        before: if i == 0 {
            None
        } else {
            Some(points[i - 1])
        },
        start: points[i],
        end: points[i + 1],
        after: if i + 2 < points.len() {
            Some(points[i + 2])
        } else {
            None
        },
    }
}

/// The points that a segment gives.
pub open spec fn segment_points<P, A: Fn(Segment<P>, usize) -> P>(
    segment: Segment<P>,
    sampling: Sampling,
    sample: A,
) -> Seq<P> {
    match sampling {
        Sampling::Nothing => Seq::empty(),
        Sampling::Start => seq![segment.start],
        Sampling::Samples(count, close) => {
            let samples = Seq::new(count as nat, |j: int| answer2(sample, segment, j as usize));
            if close {
                samples.push(segment.end)
            } else {
                samples
            }
        },
    }
}

/// The points of the first `k` segments.
pub open spec fn spline_points<P, S: Fn(Segment<P>) -> Sampling, A: Fn(Segment<P>, usize) -> P>(
    points: Seq<P>,
    sampling: S,
    sample: A,
    k: int,
) -> Seq<P>
    decreases k,
{
    if k <= 0 {
        Seq::empty()
    } else {
        let segment = segment_at(points, k - 1);
        spline_points(points, sampling, sample, k - 1) + segment_points(
            segment,
            answer1(sampling, segment),
            sample,
        )
    }
}

/// The points of a segment are answers that the kernels gave.
pub open spec fn segment_made<P, S: Fn(Segment<P>) -> Sampling, A: Fn(Segment<P>, usize) -> P>(
    segment: Segment<P>,
    sampling: S,
    sample: A,
) -> bool {
    &&& answered1(sampling, segment)
    &&& answer1(sampling, segment) matches Sampling::Samples(count, _) ==> forall|j: usize|
        j < count ==> #[trigger] answered2(sample, segment, j)
}

/// The points of the first `k` segments are answers that the kernels gave.
pub open spec fn spline_made<P, S: Fn(Segment<P>) -> Sampling, A: Fn(Segment<P>, usize) -> P>(
    points: Seq<P>,
    sampling: S,
    sample: A,
    k: int,
) -> bool {
    forall|i: int| 0 <= i < k ==> segment_made(#[trigger] segment_at(points, i), sampling, sample)
}

/// The spline through `points`: fewer than four points are kept as they are.
pub open spec fn splined<P, S: Fn(Segment<P>) -> Sampling, A: Fn(Segment<P>, usize) -> P>(
    points: Seq<P>,
    sampling: S,
    sample: A,
) -> Seq<P> {
    if points.len() < 4 {
        points
    } else {
        spline_points(points, sampling, sample, points.len() - 1)
    }
}

/// The spline through `points`. Fewer than four points are kept as they are.
/// `sampling` tells how a segment is sampled, `sample` gives its samples.
pub fn spline_v2<P: Copy, S: Fn(Segment<P>) -> Sampling, A: Fn(Segment<P>, usize) -> P>(
    points: &Vec<P>,
    sampling: S,
    sample: A,
) -> (out: Vec<P>)
    requires
        single_valued1(sampling),
        single_valued2(sample),
        forall|s: Segment<P>| sampling.requires((s,)),
        forall|s: Segment<P>, j: usize| sample.requires((s, j)),
    ensures
        out@ == splined(points@, sampling, sample),
        points.len() >= 4 ==> spline_made(points@, sampling, sample, points.len() - 1),
{
    let mut out: Vec<P> = Vec::new();
    let n: usize = points.len();
    if n < 4 {
        let mut i: usize = 0;
        while i < n
            invariant
                i <= n,
                n == points.len(),
                out@ == points@.take(i as int),
            decreases n - i,
        {
            out.push(points[i]);
            i += 1;
            assert(out@ =~= points@.take(i as int));
        }
        assert(out@ =~= points@);
        return out;
    }
    let mut i: usize = 0;
    while i < n - 1
        invariant
            i <= n - 1,
            n == points.len(),
            n >= 4,
            single_valued1(sampling),
            single_valued2(sample),
            forall|s: Segment<P>| sampling.requires((s,)),
            forall|s: Segment<P>, j: usize| sample.requires((s, j)),
            out@ == spline_points(points@, sampling, sample, i as int),
            spline_made(points@, sampling, sample, i as int),
        decreases n - 1 - i,
    {
        let before: Option<P> = if i == 0 {
            None
        } else {
            Some(points[i - 1])
        };
        let after: Option<P> = if i + 2 < n {
            Some(points[i + 2])
        } else {
            None
        };
        let segment: Segment<P> = Segment { before, start: points[i], end: points[i + 1], after };
        let how: Sampling = sampling(segment);
        proof {
            lemma_answer1(sampling, segment, how);
        }
        let ghost done = out@;
        let ghost own = segment_points(segment, how, sample);
        match how {
            Sampling::Nothing => {},
            Sampling::Start => {
                out.push(segment.start);
            },
            Sampling::Samples(count, close) => {
                let mut j: usize = 0;
                assert(out@ =~= done + own.take(0));
                while j < count
                    invariant
                        j <= count,
                        single_valued2(sample),
                        forall|s: Segment<P>, t: usize| sample.requires((s, t)),
                        own == segment_points(segment, Sampling::Samples(count, close), sample),
                        out@ == done + own.take(j as int),
                        forall|t: usize| t < j ==> #[trigger] answered2(sample, segment, t),
                    decreases count - j,
                {
                    let p: P = sample(segment, j);
                    proof {
                        lemma_answer2(sample, segment, j, p);
                    }
                    out.push(p);
                    j += 1;
                    assert(out@ =~= done + own.take(j as int));
                }
                if close {
                    out.push(segment.end);
                }
            },
        }
        assert(out@ =~= done + own);
        assert(segment == segment_at(points@, i as int));
        assert(segment_made(segment, sampling, sample));
        i += 1;
    }
    out
}

// ---------------------------------------------------------------------------
// Cleanup.

/// What is kept of the first `k` points: the first, and every one that is far
/// from the one kept before it.
pub open spec fn kept<P, F: Fn(P, P) -> bool>(points: Seq<P>, far: F, k: int) -> Seq<P>
    decreases k,
{
    if k <= 0 {
        seq![points[0]]
    } else {
        let before = kept(points, far, k - 1);
        if far.ensures((points[k - 1], before.last()), true) {
            before.push(points[k - 1])
        } else {
            before
        }
    }
}

/// What is kept of all points.
pub open spec fn cleaned<P, F: Fn(P, P) -> bool>(points: Seq<P>, far: F) -> Seq<P> {
    if points.len() == 0 {
        Seq::empty()
    } else {
        kept(points, far, points.len() as int)
    }
}

/// Keep the first point, then only points that are far from the last one kept.
pub fn cleanup<P: Copy, F: Fn(P, P) -> bool>(points: &Vec<P>, far: F) -> (out: Vec<P>)
    requires
        single_valued2(far),
        forall|a: P, b: P| far.requires((a, b)),
    ensures
        out@ == cleaned(points@, far),
        forall|i: int|
            0 <= i < points.len() ==> answered2(
                far,
                #[trigger] points[i],
                kept(points@, far, i).last(),
            ),
{
    let mut out: Vec<P> = Vec::new();
    if points.len() == 0 {
        return out;
    }
    out.push(points[0]);
    assert(out@ =~= kept(points@, far, 0));
    let mut i: usize = 0;
    while i < points.len()
        invariant
            i <= points.len(),
            single_valued2(far),
            forall|a: P, b: P| far.requires((a, b)),
            out.len() > 0,
            out@ == kept(points@, far, i as int),
            forall|j: int|
                0 <= j < i ==> answered2(
                    far,
                    #[trigger] points[j],
                    kept(points@, far, j).last(),
                ),
        decreases points.len() - i,
    {
        let last: P = out[out.len() - 1];
        let keep: bool = far(points[i], last);
        proof {
            lemma_answer2(far, points[i as int], last, keep);
        }
        if keep {
            out.push(points[i]);
        }
        i += 1;
    }
    out
}

/// Cleaned-up points keep their distance: each is far from the one before it.
pub proof fn law_kept_points_are_far_apart<P, F: Fn(P, P) -> bool>(
    points: Seq<P>,
    far: F,
    k: int,
    i: int,
)
    requires
        0 <= k,
        1 <= i < kept(points, far, k).len(),
    ensures
        far.ensures((kept(points, far, k)[i], kept(points, far, k)[i - 1]), true),
        kept(points, far, k)[0] == points[0],
    decreases k,
{
    if k > 0 {
        lemma_kept_front(points, far, k);
        let before = kept(points, far, k - 1);
        lemma_kept_front(points, far, k - 1);
        if i < before.len() {
            law_kept_points_are_far_apart(points, far, k - 1, i);
        }
    }
}

/// What is kept stays kept: the points kept of a part begin those kept of all.
proof fn lemma_kept_prefix<P, F: Fn(P, P) -> bool>(points: Seq<P>, far: F, j: int, k: int)
    requires
        0 <= j <= k,
    ensures
        kept(points, far, j).len() <= kept(points, far, k).len(),
        kept(points, far, k).take(kept(points, far, j).len() as int) == kept(points, far, j),
    decreases k,
{
    let part = kept(points, far, j);
    if j < k {
        lemma_kept_prefix(points, far, j, k - 1);
        assert(kept(points, far, k).take(part.len() as int) =~= part);
    } else {
        assert(part.take(part.len() as int) =~= part);
    }
}

/// A point is kept next, or it is not far from the last one kept before it. The
/// points kept before it begin the outcome.
pub proof fn law_dropped_points_are_near<P, F: Fn(P, P) -> bool>(points: Seq<P>, far: F, i: int)
    requires
        0 <= i < points.len(),
    ensures
        ({
            let before = kept(points, far, i);
            let out = cleaned(points, far);
            let m = before.len() as int;
            &&& 1 <= m <= out.len()
            &&& out.take(m) == before
            &&& out[0] == points[0]
            &&& if far.ensures((points[i], before.last()), true) {
                m < out.len() && out[m] == points[i]
            } else {
                kept(points, far, i + 1) == before
            }
        }),
{
    let n = points.len() as int;
    lemma_kept_front(points, far, i);
    lemma_kept_front(points, far, n);
    lemma_kept_prefix(points, far, i, n);
    lemma_kept_prefix(points, far, i + 1, n);
    let before = kept(points, far, i);
    if far.ensures((points[i], before.last()), true) {
        let after = kept(points, far, i + 1);
        assert(after == before.push(points[i]));
        assert(cleaned(points, far).take(after.len() as int)[before.len() as int] == points[i]);
    }
}

/// Cleaning up twice is cleaning up once, where no point is far from itself.
pub proof fn law_cleaning_twice_is_cleaning_once<P, F: Fn(P, P) -> bool>(points: Seq<P>, far: F)
    requires
        forall|p: P| !#[trigger] far.ensures((p, p), true),
    ensures
        cleaned(cleaned(points, far), far) == cleaned(points, far),
{
    if points.len() > 0 {
        let out = cleaned(points, far);
        lemma_kept_front(points, far, points.len() as int);
        lemma_all_kept(points, far, out.len() as int);
        assert(out.take(out.len() as int) =~= out);
    }
}

proof fn lemma_all_kept<P, F: Fn(P, P) -> bool>(points: Seq<P>, far: F, k: int)
    requires
        points.len() > 0,
        1 <= k <= cleaned(points, far).len(),
        forall|p: P| !#[trigger] far.ensures((p, p), true),
    ensures
        kept(cleaned(points, far), far, k) == cleaned(points, far).take(k),
    decreases k,
{
    let out = cleaned(points, far);
    if k > 1 {
        lemma_all_kept(points, far, k - 1);
        law_kept_points_are_far_apart(points, far, points.len() as int, k - 1);
        assert(out.take(k - 1).push(out[k - 1]) =~= out.take(k));
    } else {
        assert(kept(out, far, 0) =~= seq![out[0]]);
        assert(out.take(1) =~= seq![out[0]]);
    }
}

proof fn lemma_kept_front<P, F: Fn(P, P) -> bool>(points: Seq<P>, far: F, k: int)
    requires
        0 <= k,
    ensures
        kept(points, far, k).len() >= 1,
        kept(points, far, k).len() <= k + 1,
        kept(points, far, k)[0] == points[0],
    decreases k,
{
    if k > 0 {
        lemma_kept_front(points, far, k - 1);
    }
}

// ---------------------------------------------------------------------------
// Simplification.

/// The most points that one merge looks ahead, past the first two.
pub const MAX_WINDOW: usize = 16;

/// Every point strictly between `a` and `b` lies within the tolerance of the
/// chord from `a` to `b`.
pub open spec fn chord_fits<P, F: Fn(P, P, P) -> bool>(
    points: Seq<P>,
    within: F,
    a: int,
    b: int,
) -> bool {
    forall|i: int|
        a < i < b ==> within.ensures((#[trigger] points[i], points[a], points[b]), true)
}

/// The end that a merge looks up to from `anchor`, of `n` points.
pub open spec fn window_end(anchor: int, n: int) -> int {
    least(n, anchor + 2 + MAX_WINDOW)
}

/// The end of the run from `anchor` that has been grown to `end`: it grows
/// point by point while the chord fits.
pub open spec fn grown<P, F: Fn(P, P, P) -> bool>(
    points: Seq<P>,
    within: F,
    anchor: int,
    end: int,
) -> int
    decreases points.len() - end,
{
    if end + 1 < window_end(anchor, points.len() as int) && chord_fits(
        points,
        within,
        anchor,
        end + 1,
    ) {
        grown(points, within, anchor, end + 1)
    } else {
        end
    }
}

/// The corners kept behind `anchor`.
pub open spec fn corners<P, F: Fn(P, P, P) -> bool>(points: Seq<P>, within: F, anchor: int) -> Seq<
    int,
>
    decreases points.len() - anchor,
{
    if anchor >= points.len() - 1 {
        Seq::empty()
    } else {
        let end = grown(points, within, anchor, anchor + 1);
        if end <= anchor || end >= points.len() {
            Seq::empty()
        } else {
            seq![end] + corners(points, within, end)
        }
    }
}

/// `within` has told that some point between `a` and `b` lies off their chord.
pub open spec fn chord_broken<P, F: Fn(P, P, P) -> bool>(
    points: Seq<P>,
    within: F,
    a: int,
    b: int,
) -> bool {
    exists|i: int|
        a < i < b && within.ensures((#[trigger] points[i], points[a], points[b]), false)
}

/// Every run behind `anchor` ends where its window does, or where `within` has
/// told that it can grow no further.
pub open spec fn runs_told<P, F: Fn(P, P, P) -> bool>(
    points: Seq<P>,
    within: F,
    anchor: int,
) -> bool
    decreases points.len() - anchor,
{
    anchor < points.len() - 1 ==> {
        let end = grown(points, within, anchor, anchor + 1);
        &&& end + 1 >= window_end(anchor, points.len() as int) || chord_broken(
            points,
            within,
            anchor,
            end + 1,
        )
        &&& anchor < end < points.len() ==> runs_told(points, within, end)
    }
}

/// The points at the given places.
pub open spec fn pick<P>(points: Seq<P>, places: Seq<int>) -> Seq<P> {
    places.map(|_k: int, i: int| points[i])
}

proof fn lemma_grown<P, F: Fn(P, P, P) -> bool>(points: Seq<P>, within: F, anchor: int, end: int)
    requires
        0 <= anchor < end < window_end(anchor, points.len() as int),
        chord_fits(points, within, anchor, end),
    ensures
        end <= grown(points, within, anchor, end) < window_end(anchor, points.len() as int),
        chord_fits(points, within, anchor, grown(points, within, anchor, end)),
    decreases points.len() - end,
{
    if end + 1 < window_end(anchor, points.len() as int) && chord_fits(
        points,
        within,
        anchor,
        end + 1,
    ) {
        lemma_grown(points, within, anchor, end + 1);
    }
}

/// What merging straight-ish runs leaves of `points`.
pub open spec fn simplified<P, F: Fn(P, P, P) -> bool>(points: Seq<P>, within: F) -> Seq<P> {
    if points.len() <= 2 {
        points
    } else {
        seq![points[0]] + pick(points, corners(points, within, 0))
    }
}

/// Merge straight-ish runs: from each kept point on to the furthest point whose
/// chord keeps all points in between within the tolerance. `within` tells
/// whether its first argument is near enough to the chord of the others.
pub fn simplify<P: Copy, F: Fn(P, P, P) -> bool>(points: &Vec<P>, within: F) -> (out: Vec<P>)
    requires
        single_valued3(within),
        forall|p: P, a: P, b: P| within.requires((p, a, b)),
    ensures
        out@ == simplified(points@, within),
        points.len() > 2 ==> runs_told(points@, within, 0),
{
    let mut out: Vec<P> = Vec::new();
    let n: usize = points.len();
    if n <= 2 {
        let mut i: usize = 0;
        while i < n
            invariant
                i <= n,
                n == points.len(),
                out@ == points@.take(i as int),
            decreases n - i,
        {
            out.push(points[i]);
            i += 1;
            assert(out@ =~= points@.take(i as int));
        }
        assert(out@ =~= points@);
        return out;
    }
    out.push(points[0]);
    let mut anchor: usize = 0;
    let ghost whole = seq![points[0]] + pick(points@, corners(points@, within, 0));
    assert(out@ + pick(points@, corners(points@, within, 0)) =~= whole);
    while anchor < n - 1
        invariant
            anchor <= n - 1,
            n == points.len(),
            n > 2,
            single_valued3(within),
            forall|p: P, a: P, b: P| within.requires((p, a, b)),
            out@ + pick(points@, corners(points@, within, anchor as int)) == whole,
            runs_told(points@, within, anchor as int) ==> runs_told(points@, within, 0),
        decreases n - 1 - anchor,
    {
        let mut end: usize = anchor + 1;
        let limit: usize = if n - anchor < 2 + MAX_WINDOW {
            n
        } else {
            anchor + 2 + MAX_WINDOW
        };
        let mut grow: bool = true;
        while grow && end + 1 < limit
            invariant
                anchor < end < limit <= n,
                n == points.len(),
                limit == window_end(anchor as int, n as int),
                single_valued3(within),
                forall|p: P, a: P, b: P| within.requires((p, a, b)),
                chord_fits(points@, within, anchor as int, end as int),
                grow ==> grown(points@, within, anchor as int, end as int) == grown(
                    points@,
                    within,
                    anchor as int,
                    anchor + 1,
                ),
                !grow ==> end == grown(points@, within, anchor as int, anchor + 1),
                !grow ==> chord_broken(points@, within, anchor as int, end + 1),
            decreases limit - end + (if grow {
                1int
            } else {
                0int
            }),
        {
            let candidate: usize = end + 1;
            let mut fits: bool = true;
            let mut i: usize = anchor + 1;
            while fits && i < candidate
                invariant
                    anchor < i <= candidate < n,
                    n == points.len(),
                    single_valued3(within),
                    forall|p: P, a: P, b: P| within.requires((p, a, b)),
                    fits ==> forall|j: int|
                        anchor < j < i ==> within.ensures(
                            (#[trigger] points[j], points[anchor as int], points[candidate as int]),
                            true,
                        ),
                    !fits ==> !chord_fits(points@, within, anchor as int, candidate as int),
                    !fits ==> chord_broken(points@, within, anchor as int, candidate as int),
                decreases candidate - i + (if fits {
                    1int
                } else {
                    0int
                }),
            {
                if within(points[i], points[anchor], points[candidate]) {
                    i += 1;
                } else {
                    fits = false;
                    assert(!within.ensures(
                        (points[i as int], points[anchor as int], points[candidate as int]),
                        true,
                    ));
                }
            }
            if fits {
                end = candidate;
            } else {
                grow = false;
            }
        }
        proof {
            lemma_grown(points@, within, anchor as int, anchor + 1);
        }
        let ghost done = out@;
        out.push(points[end]);
        proof {
            let rest = corners(points@, within, end as int);
            let all = corners(points@, within, anchor as int);
            assert(all == seq![end as int] + rest);
            assert(done + pick(points@, all) =~= out@ + pick(points@, rest));
        }
        anchor = end;
    }
    assert(out@ =~= whole);
    out
}

/// Simplifying stays true to the outline: it keeps the last point, and each
/// merged run is short, keeps every dropped point within the tolerance of its
/// chord, and could not have been longer.
pub proof fn law_simplified_runs_fit<P, F: Fn(P, P, P) -> bool>(
    points: Seq<P>,
    within: F,
    anchor: int,
    k: int,
)
    requires
        0 <= anchor < points.len() - 1,
        0 <= k < corners(points, within, anchor).len(),
    ensures
        ({
            let ends = corners(points, within, anchor);
            let a = if k == 0 {
                anchor
            } else {
                ends[k - 1]
            };
            let b = ends[k];
            let n = points.len() as int;
            &&& anchor <= a < b < n
            &&& b <= a + 1 + MAX_WINDOW
            &&& chord_fits(points, within, a, b)
            &&& b + 1 >= window_end(a, n) || !chord_fits(points, within, a, b + 1)
            &&& ends.last() == n - 1
        }),
    decreases points.len() - anchor,
{
    let end = grown(points, within, anchor, anchor + 1);
    lemma_grown(points, within, anchor, anchor + 1);
    lemma_grown_stops(points, within, anchor, anchor + 1);
    let rest = corners(points, within, end);
    let ends = corners(points, within, anchor);
    assert(ends == seq![end] + rest);
    if end < points.len() - 1 {
        assert(rest.len() > 0) by {
            lemma_grown(points, within, end, end + 1);
        }
        if k > 0 {
            law_simplified_runs_fit(points, within, end, k - 1);
        } else {
            law_simplified_runs_fit(points, within, end, 0);
        }
        assert(ends.last() == rest.last());
    } else {
        assert(rest.len() == 0);
    }
}

proof fn lemma_grown_stops<P, F: Fn(P, P, P) -> bool>(
    points: Seq<P>,
    within: F,
    anchor: int,
    end: int,
)
    ensures
        ({
            let b = grown(points, within, anchor, end);
            b + 1 >= window_end(anchor, points.len() as int) || !chord_fits(
                points,
                within,
                anchor,
                b + 1,
            )
        }),
    decreases points.len() - end,
{
    if end + 1 < window_end(anchor, points.len() as int) && chord_fits(
        points,
        within,
        anchor,
        end + 1,
    ) {
        lemma_grown_stops(points, within, anchor, end + 1);
    }
}

/// The outline of a part: its shape splined, cleaned up and simplified.
pub fn outline<
    P: Copy,
    S: Fn(Segment<P>) -> Sampling,
    A: Fn(Segment<P>, usize) -> P,
    F: Fn(P, P) -> bool,
    W: Fn(P, P, P) -> bool,
>(shape: &Vec<P>, sampling: S, sample: A, far: F, within: W) -> (out: Vec<P>)
    requires
        single_valued1(sampling),
        single_valued2(sample),
        single_valued2(far),
        single_valued3(within),
        forall|s: Segment<P>| sampling.requires((s,)),
        forall|s: Segment<P>, j: usize| sample.requires((s, j)),
        forall|a: P, b: P| far.requires((a, b)),
        forall|p: P, a: P, b: P| within.requires((p, a, b)),
    ensures
        out@ == simplified(cleaned(splined(shape@, sampling, sample), far), within),
        shape.len() >= 4 ==> spline_made(shape@, sampling, sample, shape.len() - 1),
        ({
            let spline = splined(shape@, sampling, sample);
            let clean = cleaned(spline, far);
            &&& forall|i: int|
                0 <= i < spline.len() ==> answered2(
                    far,
                    #[trigger] spline[i],
                    kept(spline, far, i).last(),
                )
            &&& clean.len() > 2 ==> runs_told(clean, within, 0)
        }),
{
    let spline: Vec<P> = spline_v2(shape, sampling, sample);
    let clean: Vec<P> = cleanup(&spline, far);
    simplify(&clean, within)
}

/// The segments of a line follow each other: each begins where the one before
/// ends, and looks back to where that one began and ahead to where the next one
/// ends. Only the first has none to look back to and the last none ahead.
pub proof fn law_segments_follow_each_other<P>(points: Seq<P>, i: int)
    requires
        points.len() >= 2,
        0 <= i < points.len() - 1,
    ensures
        segment_at(points, 0).start == points[0],
        segment_at(points, points.len() - 2).end == points[points.len() - 1],
        segment_at(points, 0).before is None,
        segment_at(points, points.len() - 2).after is None,
        i > 0 ==> {
            let (last, own) = (segment_at(points, i - 1), segment_at(points, i));
            &&& own.start == last.end
            &&& own.before == Some(last.start)
            &&& last.after == Some(own.end)
            &&& own.start == points[i]
        },
{
}

/// What a segment adds to a spline: nothing where its points coincide, its start
/// where it is straight, and else its samples in their order, from the first on,
/// with its end behind them where they stop short of it.
pub proof fn law_splines_go_through_their_segments<
    P,
    S: Fn(Segment<P>) -> Sampling,
    A: Fn(Segment<P>, usize) -> P,
>(points: Seq<P>, sampling: S, sample: A, i: int, j: int)
    requires
        0 <= i < points.len() - 1,
    ensures
        ({
            let segment = segment_at(points, i);
            let before = spline_points(points, sampling, sample, i);
            let after = spline_points(points, sampling, sample, i + 1);
            let m = before.len() as int;
            &&& after.take(m) == before
            &&& match answer1(sampling, segment) {
                Sampling::Nothing => after.len() == m,
                Sampling::Start => after.len() == m + 1 && after[m] == points[i],
                Sampling::Samples(count, close) => {
                    &&& 0 <= j < count ==> after[m + j] == answer2(sample, segment, j as usize)
                    &&& close ==> after.len() == m + count + 1 && after[m + count] == points[i + 1]
                    &&& !close ==> after.len() == m + count
                },
            }
        }),
        points.len() < 4 ==> splined(points, sampling, sample) == points,
        points.len() >= 4 && i == points.len() - 2 ==> splined(points, sampling, sample)
            == spline_points(points, sampling, sample, i + 1),
{
    let before = spline_points(points, sampling, sample, i);
    let after = spline_points(points, sampling, sample, i + 1);
    assert(after.take(before.len() as int) =~= before);
}

/// A simplified line still goes from its first point to its last.
pub proof fn law_simplified_lines_keep_their_ends<P, F: Fn(P, P, P) -> bool>(
    points: Seq<P>,
    within: F,
)
    requires
        points.len() >= 1,
    ensures
        simplified(points, within).len() >= 1,
        simplified(points, within)[0] == points[0],
        simplified(points, within).last() == points.last(),
        points.len() <= 2 ==> simplified(points, within) == points,
{
    if points.len() > 2 {
        let ends = corners(points, within, 0);
        lemma_grown_bounds(points, within, 0, 1);
        assert(ends.len() > 0);
        law_simplified_runs_fit(points, within, 0, ends.len() - 1);
        let out = simplified(points, within);
        assert(out.last() == points[ends.last()]);
    }
}

proof fn lemma_grown_bounds<P, F: Fn(P, P, P) -> bool>(
    points: Seq<P>,
    within: F,
    anchor: int,
    end: int,
)
    requires
        0 <= anchor < end < points.len(),
    ensures
        end <= grown(points, within, anchor, end) < points.len(),
    decreases points.len() - end,
{
    if end + 1 < window_end(anchor, points.len() as int) && chord_fits(
        points,
        within,
        anchor,
        end + 1,
    ) {
        lemma_grown_bounds(points, within, anchor, end + 1);
    }
}

/// Between two neighbours of a simplified line every point that was left out lies
/// by the chord between them; and the line could not have gone on to the next
/// point: it was the last, or sixteen points had been left out, or one of them
/// would have been off the chord.
pub proof fn law_left_out_points_lie_by_their_chord<P, F: Fn(P, P, P) -> bool>(
    points: Seq<P>,
    within: F,
    k: int,
    i: int,
)
    requires
        points.len() > 2,
        0 <= k < simplified(points, within).len() - 1,
    ensures
        ({
            let ends = seq![0int] + corners(points, within, 0);
            let (a, b) = (ends[k], ends[k + 1]);
            let n = points.len() as int;
            &&& 0 <= a < b < n
            &&& simplified(points, within)[k] == points[a]
            &&& simplified(points, within)[k + 1] == points[b]
            &&& a < i < b ==> within.ensures((points[i], points[a], points[b]), true)
            &&& b <= a + 17
            &&& b == n - 1 || b == a + 17 || exists|j: int|
                a < j <= b && !within.ensures((#[trigger] points[j], points[a], points[b + 1]), true)
        }),
{
    law_simplified_runs_fit(points, within, 0, k);
    let found = corners(points, within, 0);
    let ends = seq![0int] + found;
    let (a, b) = (ends[k], ends[k + 1]);
    assert(ends[k + 1] == found[k]);
    if k > 0 {
        assert(ends[k] == found[k - 1]);
        law_simplified_runs_fit(points, within, 0, k - 1);
    }
    if a < i < b {
        assert(points[i] == points[i]);
    }
}

} // verus!
