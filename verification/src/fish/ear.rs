//! Ear-clipping triangulation of a simple polygon.
//!
//! The polygon is a ring of corners; an ear is a convex corner whose triangle
//! with its neighbours holds no reflex corner. Ears are cut off one by one.
//! Only reflex corners can spoil an ear, and cutting one can only turn its
//! neighbours convex. Where no ear is left, the rest is fanned.

use vstd::prelude::*;

use crate::oracle::{
    answer3, answered3, answered4, lemma_answer3, lemma_answer4, single_valued1, single_valued3,
    single_valued4,
};

verus! {

/// A triangle of corner numbers.
pub type Triangle = (u32, u32, u32);

/// The ring turned on by one corner.
pub open spec fn rotated(ring: Seq<u32>) -> Seq<u32> {
    ring.drop_first().push(ring[0])
}

/// The polygon turns the right way at corner `b` between `a` and `c`.
pub open spec fn convex_at<P, C: Fn(bool, P, P, P) -> bool>(
    points: Seq<P>,
    ccw: bool,
    turns: C,
    a: u32,
    b: u32,
    c: u32,
) -> bool {
    turns.ensures((ccw, points[a as int], points[b as int], points[c as int]), true)
}

/// The corner `j` spoils the ear at `b` between `a` and `c`.
pub open spec fn spoils<P, I: Fn(P, P, P, P) -> bool>(
    points: Seq<P>,
    inside: I,
    reflex: Seq<bool>,
    j: u32,
    a: u32,
    b: u32,
    c: u32,
) -> bool {
    &&& j < points.len()
    &&& reflex[j as int]
    &&& j != a
    &&& j != c
    &&& inside.ensures(
        (points[j as int], points[a as int], points[b as int], points[c as int]),
        true,
    )
}

/// The front corner of the ring is an ear.
pub open spec fn is_ear<P, I: Fn(P, P, P, P) -> bool>(
    points: Seq<P>,
    inside: I,
    ring: Seq<u32>,
    reflex: Seq<bool>,
) -> bool {
    &&& !reflex[ring[0] as int]
    &&& forall|j: u32| !#[trigger]
        spoils(points, inside, reflex, j, ring.last(), ring[0], ring[1])
}

/// The reflex marks after an ear was cut and `ring` is left: the ear's
/// neighbours, now the ends of the ring, may have turned convex.
pub open spec fn relaxed<P, C: Fn(bool, P, P, P) -> bool>(
    points: Seq<P>,
    ccw: bool,
    turns: C,
    ring: Seq<u32>,
    reflex: Seq<bool>,
) -> Seq<bool> {
    let m = ring.len() as int;
    let (a, c) = (ring[m - 1], ring[0]);
    let first = reflex.update(
        a as int,
        reflex[a as int] && !convex_at(points, ccw, turns, ring[m - 2], a, c),
    );
    first.update(c as int, first[c as int] && !convex_at(points, ccw, turns, a, c, ring[1]))
}

/// The triangles of the ring seen from its front corner.
pub open spec fn fan(ring: Seq<u32>) -> Seq<Triangle> {
    Seq::new((ring.len() - 2) as nat, |k: int| (ring[0], ring[k + 1], ring[k + 2]))
}

/// The triangles that clipping the ring gives, with the front corner under
/// inspection and `stalled` corners passed over since the last ear.
pub open spec fn clip<P, C: Fn(bool, P, P, P) -> bool, I: Fn(P, P, P, P) -> bool>(
    points: Seq<P>,
    ccw: bool,
    turns: C,
    inside: I,
    ring: Seq<u32>,
    reflex: Seq<bool>,
    stalled: int,
) -> Seq<Triangle>
    decreases ring.len(), ring.len() + 1 - stalled,
{
    if ring.len() <= 3 {
        seq![(ring.last(), ring[0], ring[1])]
    } else if is_ear(points, inside, ring, reflex) {
        let rest = ring.drop_first();
        seq![(ring.last(), ring[0], ring[1])] + clip(
            points,
            ccw,
            turns,
            inside,
            rest,
            relaxed(points, ccw, turns, rest, reflex),
            0,
        )
    } else if stalled + 1 > ring.len() {
        fan(rotated(ring))
    } else {
        clip(points, ccw, turns, inside, rotated(ring), reflex, stalled + 1)
    }
}

/// The ring of all corners.
pub open spec fn full_ring(n: int) -> Seq<u32> {
    Seq::new(n as nat, |i: int| i as u32)
}

/// The reflex corners of the whole polygon.
pub open spec fn reflex_corners<P, C: Fn(bool, P, P, P) -> bool>(
    points: Seq<P>,
    ccw: bool,
    turns: C,
) -> Seq<bool> {
    let n = points.len() as int;
    Seq::new(
        n as nat,
        |i: int|
            !convex_at(
                points,
                ccw,
                turns,
                (if i == 0 {
                    n - 1
                } else {
                    i - 1
                }) as u32,
                i as u32,
                (if i == n - 1 {
                    0
                } else {
                    i + 1
                }) as u32,
            ),
    )
}

/// The triangulation of a polygon: none below three corners.
pub open spec fn triangulation<P, C: Fn(bool, P, P, P) -> bool, I: Fn(P, P, P, P) -> bool>(
    points: Seq<P>,
    ccw: bool,
    turns: C,
    inside: I,
) -> Seq<Triangle> {
    if points.len() < 3 {
        Seq::empty()
    } else {
        clip(
            points,
            ccw,
            turns,
            inside,
            full_ring(points.len() as int),
            reflex_corners(points, ccw, turns),
            0,
        )
    }
}

/// `turns` has told whether the polygon is convex at corner `b`.
pub open spec fn turn_told<P, C: Fn(bool, P, P, P) -> bool>(
    points: Seq<P>,
    ccw: bool,
    turns: C,
    a: u32,
    b: u32,
    c: u32,
) -> bool {
    answered4(turns, ccw, points[a as int], points[b as int], points[c as int])
}

/// `turns` has told whether the polygon is convex at corner `i` between its
/// neighbours.
pub open spec fn corner_told<P, C: Fn(bool, P, P, P) -> bool>(
    points: Seq<P>,
    ccw: bool,
    turns: C,
    i: int,
) -> bool {
    let n = points.len() as int;
    turn_told(
        points,
        ccw,
        turns,
        (if i == 0 {
            n - 1
        } else {
            i - 1
        }) as u32,
        i as u32,
        (if i == n - 1 {
            0
        } else {
            i + 1
        }) as u32,
    )
}

/// `turns` has told whether the polygon is convex at each of the first `k`
/// corners.
pub open spec fn corners_told<P, C: Fn(bool, P, P, P) -> bool>(
    points: Seq<P>,
    ccw: bool,
    turns: C,
    k: int,
) -> bool {
    forall|i: int| 0 <= i < k ==> #[trigger] corner_told(points, ccw, turns, i)
}

/// Where the front corner of the ring is an ear, `inside` has told of every
/// reflex corner that it does not spoil it.
pub open spec fn ear_told<P, I: Fn(P, P, P, P) -> bool>(
    points: Seq<P>,
    inside: I,
    ring: Seq<u32>,
    reflex: Seq<bool>,
) -> bool {
    is_ear(points, inside, ring, reflex) ==> forall|j: u32|
        j < points.len() && #[trigger] reflex[j as int] && j != ring.last() && j != ring[1]
            ==> inside.ensures(
            (
                points[j as int],
                points[ring.last() as int],
                points[ring[0] as int],
                points[ring[1] as int],
            ),
            false,
        )
}

/// `turns` has told of the reflex corners beside a cut whether they have turned
/// convex.
pub open spec fn relaxed_told<P, C: Fn(bool, P, P, P) -> bool>(
    points: Seq<P>,
    ccw: bool,
    turns: C,
    ring: Seq<u32>,
    reflex: Seq<bool>,
) -> bool {
    let m = ring.len() as int;
    let (a, c) = (ring[m - 1], ring[0]);
    &&& reflex[a as int] ==> turn_told(points, ccw, turns, ring[m - 2], a, c)
    &&& reflex[c as int] && a != c ==> turn_told(points, ccw, turns, a, c, ring[1])
}

/// What clipping the ring rests on are answers that the two tests gave.
pub open spec fn clip_told<P, C: Fn(bool, P, P, P) -> bool, I: Fn(P, P, P, P) -> bool>(
    points: Seq<P>,
    ccw: bool,
    turns: C,
    inside: I,
    ring: Seq<u32>,
    reflex: Seq<bool>,
    stalled: int,
) -> bool
    decreases ring.len(), ring.len() + 1 - stalled,
{
    ring.len() > 3 ==> {
        &&& ear_told(points, inside, ring, reflex)
        &&& if is_ear(points, inside, ring, reflex) {
            let rest = ring.drop_first();
            &&& relaxed_told(points, ccw, turns, rest, reflex)
            &&& clip_told(
                points,
                ccw,
                turns,
                inside,
                rest,
                relaxed(points, ccw, turns, rest, reflex),
                0,
            )
        } else {
            stalled + 1 <= ring.len() ==> clip_told(
                points,
                ccw,
                turns,
                inside,
                rotated(ring),
                reflex,
                stalled + 1,
            )
        }
    }
}

/// What the triangulation of a polygon rests on are answers that the two tests
/// gave.
pub open spec fn triangulation_told<P, C: Fn(bool, P, P, P) -> bool, I: Fn(P, P, P, P) -> bool>(
    points: Seq<P>,
    ccw: bool,
    turns: C,
    inside: I,
) -> bool {
    points.len() >= 3 ==> {
        &&& corners_told(points, ccw, turns, points.len() as int)
        &&& clip_told(
            points,
            ccw,
            turns,
            inside,
            full_ring(points.len() as int),
            reflex_corners(points, ccw, turns),
            0,
        )
    }
}

/// `next` and `prev` link the corners of the ring in its order.
pub open spec fn links(next: Seq<u32>, prev: Seq<u32>, ring: Seq<u32>, n: int) -> bool {
    let m = ring.len() as int;
    &&& next.len() == n
    &&& prev.len() == n
    &&& forall|k: int| 0 <= k < m ==> (#[trigger] ring[k]) < n
    &&& forall|j: int, k: int| 0 <= j < k < m ==> #[trigger] ring[j] != #[trigger] ring[k]
    &&& forall|k: int|
        0 <= k < m ==> next[#[trigger] ring[k] as int] == (if k == m - 1 {
            ring[0]
        } else {
            ring[k + 1]
        })
    &&& forall|k: int|
        0 <= k < m ==> prev[#[trigger] ring[k] as int] == (if k == 0 {
            ring[m - 1]
        } else {
            ring[k - 1]
        })
}

proof fn lemma_rotated_links(next: Seq<u32>, prev: Seq<u32>, ring: Seq<u32>, n: int)
    requires
        ring.len() >= 2,
        links(next, prev, ring, n),
    ensures
        links(next, prev, rotated(ring), n),
{
    let m = ring.len() as int;
    let turned = rotated(ring);
    assert forall|k: int| 0 <= k < m implies (#[trigger] turned[k]) < n && next[turned[k] as int]
        == (if k == m - 1 {
        turned[0]
    } else {
        turned[k + 1]
    }) && prev[turned[k] as int] == (if k == 0 {
        turned[m - 1]
    } else {
        turned[k - 1]
    }) by {
        if k == m - 1 {
            assert(turned[k] == ring[0]);
            assert(turned[0] == ring[1]);
            assert(turned[k - 1] == ring[m - 1]);
        } else {
            assert(turned[k] == ring[k + 1]);
        }
    }
}

proof fn lemma_cut_links(
    next: Seq<u32>,
    prev: Seq<u32>,
    ring: Seq<u32>,
    n: int,
)
    requires
        ring.len() >= 4,
        links(next, prev, ring, n),
    ensures
        links(
            next.update(ring.last() as int, ring[1]),
            prev.update(ring[1] as int, ring.last()),
            ring.drop_first(),
            n,
        ),
{
    let m = ring.len() as int;
    let rest = ring.drop_first();
    let next2 = next.update(ring.last() as int, ring[1]);
    let prev2 = prev.update(ring[1] as int, ring.last());
    assert forall|k: int| 0 <= k < m - 1 implies (#[trigger] rest[k]) < n && next2[rest[k] as int]
        == (if k == m - 2 {
        rest[0]
    } else {
        rest[k + 1]
    }) && prev2[rest[k] as int] == (if k == 0 {
        rest[m - 2]
    } else {
        rest[k - 1]
    }) by {
        assert(rest[k] == ring[k + 1]);
        assert(ring[k + 1] == ring[1] <==> k == 0);
        assert(ring[k + 1] == ring[m - 1] <==> k == m - 2);
    }
    assert forall|j: int, k: int| 0 <= j < k < m - 1 implies #[trigger] rest[j]
        != #[trigger] rest[k] by {
        assert(ring[j + 1] != ring[k + 1]);
    }
}

/// Add the triangles of the ring seen from its front corner.
fn fan_out(
    out: &mut Vec<Triangle>,
    next: &Vec<u32>,
    start: u32,
    Ghost(prev): Ghost<Seq<u32>>,
    Ghost(ring): Ghost<Seq<u32>>,
)
    requires
        ring.len() > 3,
        links(next@, prev, ring, next.len() as int),
        start == ring[0],
    ensures
        final(out)@ == old(out)@ + fan(ring),
{
    let mut walk: u32 = next[start as usize];
    let ghost mut w: int = 1;
    let ghost done = out@;
    let ghost m = ring.len() as int;
    assert(next[ring[0] as int] == ring[1]);
    assert(out@ =~= done + fan(ring).take(0));
    while next[walk as usize] != start
        invariant
            m == ring.len(),
            m > 3,
            links(next@, prev, ring, next.len() as int),
            start == ring[0],
            1 <= w < m,
            walk == ring[w],
            walk < next.len(),
            out@ == done + fan(ring).take(w - 1),
        decreases m - w,
    {
        assert(next[ring[w] as int] == (if w == m - 1 {
            ring[0]
        } else {
            ring[w + 1]
        }));
        out.push((start, walk, next[walk as usize]));
        assert(out@ =~= done + fan(ring).take(w));
        walk = next[walk as usize];
        proof {
            w = w + 1;
        }
    }
    proof {
        assert(next[ring[w] as int] == (if w == m - 1 {
            ring[0]
        } else {
            ring[w + 1]
        }));
        if w < m - 1 {
            assert(ring[0] != ring[w + 1]);
        }
        assert(fan(ring).take(w - 1) =~= fan(ring));
    }
}

/// Triangulate a polygon of known orientation by ear clipping. `turns` tells
/// whether a polygon of that orientation is convex at the middle one of three
/// corners, `inside` whether a point lies in the triangle of the others.
pub fn clip_ears<P: Copy, C: Fn(bool, P, P, P) -> bool, I: Fn(P, P, P, P) -> bool>(
    points: &Vec<P>,
    ccw: bool,
    turns: C,
    inside: I,
) -> (triangles: Vec<Triangle>)
    requires
        points.len() < u32::MAX,
        single_valued4(turns),
        single_valued4(inside),
        forall|w: bool, a: P, b: P, c: P| turns.requires((w, a, b, c)),
        forall|p: P, a: P, b: P, c: P| inside.requires((p, a, b, c)),
    ensures
        triangles@ == triangulation(points@, ccw, turns, inside),
        triangulation_told(points@, ccw, turns, inside),
{
    let mut out: Vec<Triangle> = Vec::new();
    let n: usize = points.len();
    if n < 3 {
        return out;
    }
    let n32: u32 = n as u32;
    let mut next: Vec<u32> = Vec::new();
    let mut prev: Vec<u32> = Vec::new();
    let mut i: u32 = 0;
    while i < n32
        invariant
            i <= n32,
            n32 == n == points.len(),
            n32 >= 3,
            n < u32::MAX,
            next.len() == i,
            prev.len() == i,
            forall|k: int|
                0 <= k < i ==> #[trigger] next[k] == (if k == n32 - 1 {
                    0
                } else {
                    k + 1
                }),
            forall|k: int|
                0 <= k < i ==> #[trigger] prev[k] == (if k == 0 {
                    n32 - 1
                } else {
                    k - 1
                }),
        decreases n32 - i,
    {
        next.push(
            if i == n32 - 1 {
                0
            } else {
                i + 1
            },
        );
        prev.push(
            if i == 0 {
                n32 - 1
            } else {
                i - 1
            },
        );
        i += 1;
    }
    let mut reflex: Vec<bool> = Vec::new();
    let mut reflex_list: Vec<u32> = Vec::new();
    let mut k: u32 = 0;
    while k < n32
        invariant
            k <= n32,
            n32 == n == points.len(),
            n32 >= 3,
            n < u32::MAX,
            next.len() == n,
            prev.len() == n,
            forall|j: int|
                0 <= j < n ==> #[trigger] next[j] == (if j == n32 - 1 {
                    0
                } else {
                    j + 1
                }),
            forall|j: int|
                0 <= j < n ==> #[trigger] prev[j] == (if j == 0 {
                    n32 - 1
                } else {
                    j - 1
                }),
            single_valued4(turns),
            forall|w: bool, a: P, b: P, c: P| turns.requires((w, a, b, c)),
            reflex.len() == k,
            forall|j: int|
                0 <= j < k ==> #[trigger] reflex[j] == reflex_corners(points@, ccw, turns)[j],
            forall|j: int| 0 <= j < reflex_list.len() ==> (#[trigger] reflex_list[j]) < k,
            forall|j: u32| j < k && #[trigger] reflex[j as int] ==> reflex_list@.contains(j),
            corners_told(points@, ccw, turns, k as int),
        decreases n32 - k,
    {
        let before: u32 = prev[k as usize];
        let after: u32 = next[k as usize];
        let convex: bool = turns(ccw, points[before as usize], points[k as usize], points[after as usize]);
        proof {
            lemma_answer4(
                turns,
                ccw,
                points[before as int],
                points[k as int],
                points[after as int],
                convex,
            );
            assert(turn_told(points@, ccw, turns, before, k, after));
            assert(corner_told(points@, ccw, turns, k as int));
        }
        let ghost list = reflex_list@;
        reflex.push(!convex);
        if !convex {
            reflex_list.push(k);
            proof {
                assert(reflex_list@[list.len() as int] == k);
                assert forall|j: u32| j < k && #[trigger] reflex[j as int] implies
                    reflex_list@.contains(j) by {
                    assert(list.contains(j));
                    let at = choose|at: int| 0 <= at < list.len() && list[at] == j;
                    assert(reflex_list@[at] == j);
                }
            }
        }
        k += 1;
    }
    let ghost mut ring = full_ring(n as int);
    let ghost whole = triangulation(points@, ccw, turns, inside);
    let ghost told = clip_told(
        points@,
        ccw,
        turns,
        inside,
        ring,
        reflex_corners(points@, ccw, turns),
        0,
    );
    proof {
        assert(reflex@ =~= reflex_corners(points@, ccw, turns));
        assert(links(next@, prev@, ring, n as int));
        assert(out@ + clip(points@, ccw, turns, inside, ring, reflex@, 0) =~= whole);
        assert(told ==> triangulation_told(points@, ccw, turns, inside));
    }
    let mut remaining: usize = n;
    let mut current: u32 = 0;
    let mut stalled: usize = 0;
    while remaining > 3
        invariant
            n == points.len(),
            n < u32::MAX,
            3 <= remaining <= n,
            remaining == ring.len(),
            stalled <= remaining,
            single_valued4(turns),
            single_valued4(inside),
            forall|w: bool, a: P, b: P, c: P| turns.requires((w, a, b, c)),
            forall|p: P, a: P, b: P, c: P| inside.requires((p, a, b, c)),
            links(next@, prev@, ring, n as int),
            current == ring[0],
            reflex.len() == n,
            forall|j: int| 0 <= j < reflex_list.len() ==> (#[trigger] reflex_list[j]) < n,
            forall|j: u32| j < n && #[trigger] reflex[j as int] ==> reflex_list@.contains(j),
            whole == triangulation(points@, ccw, turns, inside),
            out@ + clip(points@, ccw, turns, inside, ring, reflex@, stalled as int) == whole,
            clip_told(points@, ccw, turns, inside, ring, reflex@, stalled as int) ==> told,
            told ==> triangulation_told(points@, ccw, turns, inside),
        decreases remaining, remaining + 1 - stalled,
    {
        let ia: u32 = prev[current as usize];
        let ib: u32 = current;
        let ic: u32 = next[current as usize];
        assert(ring[0] == ib && ring.last() == ia && ring[1] == ic);
        let mut ear: bool = !reflex[ib as usize];
        let mut at: usize = 0;
        while ear && at < reflex_list.len()
            invariant
                n == points.len(),
                n < u32::MAX,
                at <= reflex_list.len(),
                ia < n,
                ib < n,
                ic < n,
                reflex.len() == n,
                single_valued4(inside),
                forall|p: P, a: P, b: P, c: P| inside.requires((p, a, b, c)),
                forall|j: int| 0 <= j < reflex_list.len() ==> (#[trigger] reflex_list[j]) < n,
                ear ==> !reflex[ib as int],
                ear ==> forall|j: int|
                    0 <= j < at ==> !spoils(
                        points@,
                        inside,
                        reflex@,
                        #[trigger] reflex_list[j],
                        ia,
                        ib,
                        ic,
                    ),
                ear ==> forall|j: int|
                    0 <= j < at && reflex[(#[trigger] reflex_list[j]) as int] && reflex_list[j] != ia
                        && reflex_list[j] != ic ==> inside.ensures(
                        (
                            points[reflex_list[j] as int],
                            points[ia as int],
                            points[ib as int],
                            points[ic as int],
                        ),
                        false,
                    ),
                !ear ==> reflex[ib as int] || exists|j: u32| #[trigger]
                    spoils(points@, inside, reflex@, j, ia, ib, ic),
            decreases reflex_list.len() - at,
        {
            let j: u32 = reflex_list[at];
            if reflex[j as usize] && j != ia && j != ic && inside(
                points[j as usize],
                points[ia as usize],
                points[ib as usize],
                points[ic as usize],
            ) {
                assert(spoils(points@, inside, reflex@, j, ia, ib, ic));
                ear = false;
            }
            at += 1;
        }
        proof {
            if ear {
                assert forall|j: u32| !#[trigger]
                    spoils(points@, inside, reflex@, j, ia, ib, ic) by {
                    if spoils(points@, inside, reflex@, j, ia, ib, ic) {
                        assert(reflex_list@.contains(j));
                        let found = choose|f: int|
                            0 <= f < reflex_list.len() && reflex_list@[f] == j;
                        assert(!spoils(points@, inside, reflex@, reflex_list[found], ia, ib, ic));
                    }
                }
            }
            assert(ear == is_ear(points@, inside, ring, reflex@));
            if ear {
                assert forall|j: u32|
                    j < points.len() && #[trigger] reflex@[j as int] && j != ia && j != ic implies
                    inside.ensures(
                    (points[j as int], points[ia as int], points[ib as int], points[ic as int]),
                    false,
                ) by {
                    assert(reflex[j as int]);
                    assert(reflex_list@.contains(j));
                    let found = choose|f: int| 0 <= f < reflex_list.len() && reflex_list@[f] == j;
                    assert(reflex_list[found] == j);
                }
            }
            assert(ear_told(points@, inside, ring, reflex@));
        }
        if ear {
            let ghost rest = ring.drop_first();
            let ghost marks = reflex@;
            let ghost done = out@;
            out.push((ia, ib, ic));
            proof {
                lemma_cut_links(next@, prev@, ring, n as int);
            }
            next.set(ia as usize, ic);
            prev.set(ic as usize, ia);
            remaining -= 1;
            stalled = 0;
            proof {
                assert(rest[rest.len() - 1] == ia && rest[0] == ic);
                assert(prev[ia as int] == rest[rest.len() - 2]) by {
                    assert(prev[rest[rest.len() - 1] as int] == rest[rest.len() - 2]);
                }
                assert(next[ia as int] == ic);
                assert(next[ic as int] == rest[1]) by {
                    assert(next[rest[0] as int] == rest[1]);
                }
                assert(prev[ic as int] == ia);
                assert(rest[1] < n && rest[rest.len() - 2] < n);
            }
            if reflex[ia as usize] {
                let (before, after) = (prev[ia as usize], next[ia as usize]);
                let convex: bool = turns(
                    ccw,
                    points[before as usize],
                    points[ia as usize],
                    points[after as usize],
                );
                proof {
                    lemma_answer4(
                        turns,
                        ccw,
                        points[before as int],
                        points[ia as int],
                        points[after as int],
                        convex,
                    );
                    assert(turn_told(points@, ccw, turns, before, ia, after));
                }
                if convex {
                    reflex.set(ia as usize, false);
                }
            }
            let ghost first = reflex@;
            assert(first =~= marks.update(
                ia as int,
                marks[ia as int] && !convex_at(points@, ccw, turns, rest[rest.len() - 2], ia, ic),
            ));
            if reflex[ic as usize] {
                let (before, after) = (prev[ic as usize], next[ic as usize]);
                let convex: bool = turns(
                    ccw,
                    points[before as usize],
                    points[ic as usize],
                    points[after as usize],
                );
                proof {
                    lemma_answer4(
                        turns,
                        ccw,
                        points[before as int],
                        points[ic as int],
                        points[after as int],
                        convex,
                    );
                    assert(turn_told(points@, ccw, turns, before, ic, after));
                }
                if convex {
                    reflex.set(ic as usize, false);
                }
            }
            proof {
                assert(reflex@ =~= relaxed(points@, ccw, turns, rest, marks));
                assert(relaxed_told(points@, ccw, turns, rest, marks));
                assert forall|j: u32| j < n && #[trigger] reflex[j as int] implies
                    reflex_list@.contains(j) by {
                    assert(marks[j as int]);
                }
                let tail = clip(points@, ccw, turns, inside, rest, reflex@, 0);
                assert(done + (seq![(ia, ib, ic)] + tail) =~= out@ + tail);
                ring = rest;
            }
            current = ic;
        } else {
            current = ic;
            stalled += 1;
            proof {
                lemma_rotated_links(next@, prev@, ring, n as int);
            }
            let ghost turned = rotated(ring);
            assert(turned[0] == ic);
            if stalled > remaining {
                assert(clip_told(points@, ccw, turns, inside, ring, reflex@, stalled - 1));
                fan_out(&mut out, &next, current, Ghost(prev@), Ghost(turned));
                return out;
            }
            proof {
                ring = turned;
            }
        }
    }
    assert(next[ring[0] as int] == ring[1] && prev[ring[0] as int] == ring[2]);
    out.push((prev[current as usize], current, next[current as usize]));
    assert(out@ =~= whole);
    out
}

/// The area terms of the first `k` edges, added up from `zero`.
pub open spec fn area_sum<P, A, T: Fn(A, P, P) -> A>(
    points: Seq<P>,
    zero: A,
    term: T,
    k: int,
) -> A
    decreases k,
{
    if k <= 0 {
        zero
    } else {
        let next = if k == points.len() {
            points[0]
        } else {
            points[k]
        };
        answer3(term, area_sum(points, zero, term, k - 1), points[k - 1], next)
    }
}

/// The sums over the first `k` edges are answers that `term` gave.
pub open spec fn area_made<P, A, T: Fn(A, P, P) -> A>(
    points: Seq<P>,
    zero: A,
    term: T,
    k: int,
) -> bool {
    forall|i: int|
        0 <= i < k ==> answered3(
            term,
            #[trigger] area_sum(points, zero, term, i),
            points[i],
            if i + 1 == points.len() {
                points[0]
            } else {
                points[i + 1]
            },
        )
}

/// The polygon's area is positive.
pub open spec fn is_ccw<P, A, T: Fn(A, P, P) -> A, G: Fn(A) -> bool>(
    points: Seq<P>,
    zero: A,
    term: T,
    positive: G,
) -> bool {
    positive.ensures((area_sum(points, zero, term, points.len() as int),), true)
}

/// Triangulate a simple polygon of either orientation, which the sign of its
/// area tells. `term` adds one edge to the area.
pub fn ear_clip<
    P: Copy,
    A,
    T: Fn(A, P, P) -> A,
    G: Fn(A) -> bool,
    C: Fn(bool, P, P, P) -> bool,
    I: Fn(P, P, P, P) -> bool,
>(points: &Vec<P>, zero: A, term: T, positive: G, turns: C, inside: I) -> (triangles: Vec<Triangle>)
    requires
        points.len() < u32::MAX,
        single_valued3(term),
        single_valued1(positive),
        single_valued4(turns),
        single_valued4(inside),
        forall|s: A, a: P, b: P| term.requires((s, a, b)),
        forall|s: A| positive.requires((s,)),
        forall|w: bool, a: P, b: P, c: P| turns.requires((w, a, b, c)),
        forall|p: P, a: P, b: P, c: P| inside.requires((p, a, b, c)),
    ensures
        triangles@ == triangulation(
            points@,
            is_ccw(points@, zero, term, positive),
            turns,
            inside,
        ),
        triangulation_told(points@, is_ccw(points@, zero, term, positive), turns, inside),
        points.len() >= 3 ==> {
            &&& area_made(points@, zero, term, points.len() as int)
            &&& positive.ensures(
                (area_sum(points@, zero, term, points.len() as int),),
                is_ccw(points@, zero, term, positive),
            )
        },
{
    let n: usize = points.len();
    if n < 3 {
        return Vec::new();
    }
    let ghost start = zero;
    let mut sum: A = zero;
    let mut i: usize = 0;
    while i < n
        invariant
            i <= n,
            n == points.len(),
            n >= 3,
            single_valued3(term),
            forall|s: A, a: P, b: P| term.requires((s, a, b)),
            sum == area_sum(points@, start, term, i as int),
            area_made(points@, start, term, i as int),
        decreases n - i,
    {
        let next: P = if i + 1 == n {
            points[0]
        } else {
            points[i + 1]
        };
        let ghost before = sum;
        sum = term(sum, points[i], next);
        proof {
            lemma_answer3(term, before, points[i as int], next, sum);
        }
        i += 1;
    }
    let ccw: bool = positive(sum);
    clip_ears(points, ccw, turns, inside)
}

/// A polygon of `n` corners is cut into `n - 2` triangles, whatever its shape
/// and whatever the two tests answer.
pub proof fn law_triangle_count<P, C: Fn(bool, P, P, P) -> bool, I: Fn(P, P, P, P) -> bool>(
    points: Seq<P>,
    ccw: bool,
    turns: C,
    inside: I,
)
    requires
        points.len() >= 3,
    ensures
        triangulation(points, ccw, turns, inside).len() == points.len() - 2,
{
    lemma_clip_len(
        points,
        ccw,
        turns,
        inside,
        full_ring(points.len() as int),
        reflex_corners(points, ccw, turns),
        0,
    );
}

proof fn lemma_clip_len<P, C: Fn(bool, P, P, P) -> bool, I: Fn(P, P, P, P) -> bool>(
    points: Seq<P>,
    ccw: bool,
    turns: C,
    inside: I,
    ring: Seq<u32>,
    reflex: Seq<bool>,
    stalled: int,
)
    requires
        ring.len() >= 3,
    ensures
        clip(points, ccw, turns, inside, ring, reflex, stalled).len() == ring.len() - 2,
    decreases ring.len(), ring.len() + 1 - stalled,
{
    if ring.len() > 3 {
        if is_ear(points, inside, ring, reflex) {
            let rest = ring.drop_first();
            lemma_clip_len(points, ccw, turns, inside, rest, relaxed(points, ccw, turns, rest, reflex), 0);
        } else if stalled + 1 <= ring.len() {
            lemma_clip_len(points, ccw, turns, inside, rotated(ring), reflex, stalled + 1);
        }
    }
}

/// The polygon is convex: at any three corners in their order it turns its way,
/// from whichever of them one starts.
pub open spec fn is_convex<P, C: Fn(bool, P, P, P) -> bool>(
    points: Seq<P>,
    ccw: bool,
    turns: C,
) -> bool {
    forall|i: u32, j: u32, k: u32|
        i < j < k < points.len() ==> #[trigger] convex_at(points, ccw, turns, i, j, k)
            && convex_at(points, ccw, turns, j, k, i) && convex_at(points, ccw, turns, k, i, j)
}

proof fn lemma_clip_convex<P, C: Fn(bool, P, P, P) -> bool, I: Fn(P, P, P, P) -> bool>(
    points: Seq<P>,
    ccw: bool,
    turns: C,
    inside: I,
    ring: Seq<u32>,
    reflex: Seq<bool>,
)
    requires
        ring.len() >= 3,
        reflex.len() == points.len(),
        forall|i: int| 0 <= i < ring.len() ==> (#[trigger] ring[i]) < points.len(),
        forall|i: int| 0 <= i < reflex.len() ==> !#[trigger] reflex[i],
    ensures
        clip(points, ccw, turns, inside, ring, reflex, 0) == Seq::new(
            (ring.len() - 2) as nat,
            |k: int| (ring.last(), ring[k], ring[k + 1]),
        ),
    decreases ring.len(),
{
    let all = Seq::new((ring.len() - 2) as nat, |k: int| (ring.last(), ring[k], ring[k + 1]));
    let own = seq![(ring.last(), ring[0], ring[1])];
    if ring.len() == 3 {
        assert(own =~= all);
    } else {
        assert(!reflex[ring[0] as int]);
        let rest = ring.drop_first();
        let marks = relaxed(points, ccw, turns, rest, reflex);
        assert forall|i: int| 0 <= i < rest.len() implies (#[trigger] rest[i]) < points.len() by {
            assert(ring[i + 1] < points.len());
        }
        assert(rest[0] < points.len() && rest[rest.len() - 1] < points.len());
        assert(marks =~= reflex);
        lemma_clip_convex(points, ccw, turns, inside, rest, reflex);
        assert(own + clip(points, ccw, turns, inside, rest, reflex, 0) =~= all);
    }
}

/// A convex polygon is cut into the fan around its last corner, whose triangles
/// turn its way.
pub proof fn law_convex_polygons_are_fanned<
    P,
    C: Fn(bool, P, P, P) -> bool,
    I: Fn(P, P, P, P) -> bool,
>(points: Seq<P>, ccw: bool, turns: C, inside: I, k: int)
    requires
        3 <= points.len() <= u32::MAX,
        is_convex(points, ccw, turns),
        0 <= k < points.len() - 2,
    ensures
        ({
            let t = triangulation(points, ccw, turns, inside)[k];
            &&& t == ((points.len() - 1) as u32, k as u32, (k + 1) as u32)
            &&& convex_at(points, ccw, turns, t.0, t.1, t.2)
        }),
{
    let n = points.len() as int;
    let reflex = reflex_corners(points, ccw, turns);
    assert forall|i: int| 0 <= i < n implies !#[trigger] reflex[i] by {
        let (a, b, c) = (0u32, i as u32, (n - 1) as u32);
        if i == 0 {
            assert(convex_at(points, ccw, turns, 0, 1, c));
        } else if i == n - 1 {
            assert(convex_at(points, ccw, turns, 0, (n - 2) as u32, c));
        } else {
            assert(convex_at(points, ccw, turns, (i - 1) as u32, b, (i + 1) as u32));
        }
    }
    lemma_clip_convex(points, ccw, turns, inside, full_ring(n), reflex);
    assert(convex_at(points, ccw, turns, k as u32, (k + 1) as u32, (n - 1) as u32));
}

/// The ring turns the polygon's way at its place `i`.
pub open spec fn ring_convex<P, C: Fn(bool, P, P, P) -> bool>(
    points: Seq<P>,
    ccw: bool,
    turns: C,
    ring: Seq<u32>,
    i: int,
) -> bool {
    let m = ring.len() as int;
    convex_at(
        points,
        ccw,
        turns,
        ring[if i == 0 {
            m - 1
        } else {
            i - 1
        }],
        ring[i],
        ring[if i == m - 1 {
            0
        } else {
            i + 1
        }],
    )
}

/// The ring turns the polygon's way at every corner that is not marked reflex.
pub open spec fn marks_hold<P, C: Fn(bool, P, P, P) -> bool>(
    points: Seq<P>,
    ccw: bool,
    turns: C,
    ring: Seq<u32>,
    reflex: Seq<bool>,
) -> bool {
    forall|i: int|
        0 <= i < ring.len() && !reflex[ring[i] as int] ==> #[trigger] ring_convex(
            points,
            ccw,
            turns,
            ring,
            i,
        )
}

/// Cutting the ear at the front of a ring leaves the convex corners beside it
/// convex.
pub open spec fn cut_keeps_convex<P, C: Fn(bool, P, P, P) -> bool>(
    points: Seq<P>,
    ccw: bool,
    turns: C,
    ring: Seq<u32>,
) -> bool {
    let m = ring.len() as int;
    let rest = ring.drop_first();
    &&& ring_convex(points, ccw, turns, ring, m - 1) ==> ring_convex(
        points,
        ccw,
        turns,
        rest,
        m - 2,
    )
    &&& ring_convex(points, ccw, turns, ring, 1) ==> ring_convex(points, ccw, turns, rest, 0)
}

/// Every cut that clipping the ring makes leaves the convex corners beside it
/// convex, as it does for a polygon that does not cross itself.
pub open spec fn clip_keeps_convex<P, C: Fn(bool, P, P, P) -> bool, I: Fn(P, P, P, P) -> bool>(
    points: Seq<P>,
    ccw: bool,
    turns: C,
    inside: I,
    ring: Seq<u32>,
    reflex: Seq<bool>,
    stalled: int,
) -> bool
    decreases ring.len(), ring.len() + 1 - stalled,
{
    ring.len() > 3 ==> if is_ear(points, inside, ring, reflex) {
        let rest = ring.drop_first();
        &&& cut_keeps_convex(points, ccw, turns, ring)
        &&& clip_keeps_convex(
            points,
            ccw,
            turns,
            inside,
            rest,
            relaxed(points, ccw, turns, rest, reflex),
            0,
        )
    } else {
        stalled + 1 <= ring.len() ==> clip_keeps_convex(
            points,
            ccw,
            turns,
            inside,
            rotated(ring),
            reflex,
            stalled + 1,
        )
    }
}

/// How many ears clipping the ring cuts, before three corners are left or the rest
/// is fanned.
pub open spec fn ear_count<P, C: Fn(bool, P, P, P) -> bool, I: Fn(P, P, P, P) -> bool>(
    points: Seq<P>,
    ccw: bool,
    turns: C,
    inside: I,
    ring: Seq<u32>,
    reflex: Seq<bool>,
    stalled: int,
) -> int
    decreases ring.len(), ring.len() + 1 - stalled,
{
    if ring.len() <= 3 {
        0
    } else if is_ear(points, inside, ring, reflex) {
        let rest = ring.drop_first();
        1 + ear_count(
            points,
            ccw,
            turns,
            inside,
            rest,
            relaxed(points, ccw, turns, rest, reflex),
            0,
        )
    } else if stalled + 1 > ring.len() {
        0
    } else {
        ear_count(points, ccw, turns, inside, rotated(ring), reflex, stalled + 1)
    }
}

proof fn lemma_rotated_marks<P, C: Fn(bool, P, P, P) -> bool>(
    points: Seq<P>,
    ccw: bool,
    turns: C,
    ring: Seq<u32>,
    reflex: Seq<bool>,
)
    requires
        ring.len() > 3,
        marks_hold(points, ccw, turns, ring, reflex),
    ensures
        marks_hold(points, ccw, turns, rotated(ring), reflex),
{
    let m = ring.len() as int;
    let turned = rotated(ring);
    assert forall|i: int| 0 <= i < m && !reflex[turned[i] as int] implies #[trigger] ring_convex(
        points,
        ccw,
        turns,
        turned,
        i,
    ) by {
        let j = if i == m - 1 {
            0
        } else {
            i + 1
        };
        assert(turned[i] == ring[j]);
        assert(ring_convex(points, ccw, turns, ring, j));
        let (before, after) = (
            if i == 0 {
                m - 1
            } else {
                i - 1
            },
            if i == m - 1 {
                0
            } else {
                i + 1
            },
        );
        assert(turned[before] == ring[if j == 0 {
            m - 1
        } else {
            j - 1
        }]);
        assert(turned[after] == ring[if j == m - 1 {
            0
        } else {
            j + 1
        }]);
    }
}

proof fn lemma_cut_marks<P, C: Fn(bool, P, P, P) -> bool, I: Fn(P, P, P, P) -> bool>(
    points: Seq<P>,
    ccw: bool,
    turns: C,
    inside: I,
    ring: Seq<u32>,
    reflex: Seq<bool>,
)
    requires
        ring.len() > 3,
        distinct(ring),
        reflex.len() == points.len(),
        forall|i: int| 0 <= i < ring.len() ==> (#[trigger] ring[i]) < points.len(),
        is_ear(points, inside, ring, reflex),
        marks_hold(points, ccw, turns, ring, reflex),
        cut_keeps_convex(points, ccw, turns, ring),
    ensures
        marks_hold(
            points,
            ccw,
            turns,
            ring.drop_first(),
            relaxed(points, ccw, turns, ring.drop_first(), reflex),
        ),
{
    let m = ring.len() as int;
    let rest = ring.drop_first();
    let marks = relaxed(points, ccw, turns, rest, reflex);
    assert(rest[m - 2] == ring[m - 1] && rest[0] == ring[1] && rest[1] == ring[2] && rest[m - 3]
        == ring[m - 2]);
    assert(ring[1] != ring[m - 1]);
    assert forall|i: int| 0 <= i < m - 1 && !marks[rest[i] as int] implies #[trigger] ring_convex(
        points,
        ccw,
        turns,
        rest,
        i,
    ) by {
        assert(rest[i] == ring[i + 1]);
        assert(ring[i + 1] < points.len());
        if i == 0 {
            assert(!reflex[ring[1] as int] ==> ring_convex(points, ccw, turns, ring, 1));
        } else if i == m - 2 {
            assert(!reflex[ring[m - 1] as int] ==> ring_convex(points, ccw, turns, ring, m - 1));
        } else {
            assert(ring[i + 1] != ring[1] && ring[i + 1] != ring[m - 1]);
            assert(marks[rest[i] as int] == reflex[ring[i + 1] as int]);
            assert(ring_convex(points, ccw, turns, ring, i + 1));
            assert(rest[i - 1] == ring[i] && rest[i + 1] == ring[i + 2]);
        }
    }
}

proof fn lemma_ears_turn<P, C: Fn(bool, P, P, P) -> bool, I: Fn(P, P, P, P) -> bool>(
    points: Seq<P>,
    ccw: bool,
    turns: C,
    inside: I,
    ring: Seq<u32>,
    reflex: Seq<bool>,
    stalled: int,
    k: int,
)
    requires
        ring.len() >= 3,
        distinct(ring),
        reflex.len() == points.len(),
        forall|i: int| 0 <= i < ring.len() ==> (#[trigger] ring[i]) < points.len(),
        marks_hold(points, ccw, turns, ring, reflex),
        clip_keeps_convex(points, ccw, turns, inside, ring, reflex, stalled),
        0 <= k < ear_count(points, ccw, turns, inside, ring, reflex, stalled),
    ensures
        ({
            let triangles = clip(points, ccw, turns, inside, ring, reflex, stalled);
            &&& k < triangles.len()
            &&& convex_at(points, ccw, turns, triangles[k].0, triangles[k].1, triangles[k].2)
        }),
    decreases ring.len(), ring.len() + 1 - stalled,
{
    if ring.len() > 3 {
        if is_ear(points, inside, ring, reflex) {
            let rest = ring.drop_first();
            let marks = relaxed(points, ccw, turns, rest, reflex);
            assert(ring_convex(points, ccw, turns, ring, 0));
            if k > 0 {
                lemma_cut_marks(points, ccw, turns, inside, ring, reflex);
                assert forall|i: int, j: int| 0 <= i < j < rest.len() implies #[trigger] rest[i]
                    != #[trigger] rest[j] by {
                    assert(ring[i + 1] != ring[j + 1]);
                }
                assert forall|i: int| 0 <= i < rest.len() implies (#[trigger] rest[i])
                    < points.len() by {
                    assert(ring[i + 1] < points.len());
                }
                lemma_ears_turn(points, ccw, turns, inside, rest, marks, 0, k - 1);
                let own = seq![(ring.last(), ring[0], ring[1])];
                let more = clip(points, ccw, turns, inside, rest, marks, 0);
                assert((own + more)[k] == more[k - 1]);
            }
        } else if stalled + 1 <= ring.len() {
            let turned = rotated(ring);
            lemma_rotated_marks(points, ccw, turns, ring, reflex);
            assert forall|i: int, j: int| 0 <= i < j < turned.len() implies #[trigger] turned[i]
                != #[trigger] turned[j] by {
                assert(turned[i] == ring[i + 1]);
                assert(turned[j] == (if j == ring.len() - 1 {
                    ring[0]
                } else {
                    ring[j + 1]
                }));
                if j == ring.len() - 1 {
                    assert(ring[0] != ring[i + 1]);
                }
            }
            assert forall|i: int| 0 <= i < turned.len() implies (#[trigger] turned[i])
                < points.len() by {
                assert(turned[i] == (if i == ring.len() - 1 {
                    ring[0]
                } else {
                    ring[i + 1]
                }));
            }
            lemma_ears_turn(points, ccw, turns, inside, turned, reflex, stalled + 1, k);
        }
    }
}

/// Every ear turns the polygon's way, where the cuts leave the convex corners beside
/// them convex.
pub proof fn law_ears_turn_the_polygons_way<
    P,
    C: Fn(bool, P, P, P) -> bool,
    I: Fn(P, P, P, P) -> bool,
>(points: Seq<P>, ccw: bool, turns: C, inside: I, k: int)
    requires
        3 <= points.len() <= u32::MAX,
        clip_keeps_convex(
            points,
            ccw,
            turns,
            inside,
            full_ring(points.len() as int),
            reflex_corners(points, ccw, turns),
            0,
        ),
        0 <= k < ear_count(
            points,
            ccw,
            turns,
            inside,
            full_ring(points.len() as int),
            reflex_corners(points, ccw, turns),
            0,
        ),
    ensures
        ({
            let triangles = triangulation(points, ccw, turns, inside);
            &&& k < triangles.len()
            &&& convex_at(points, ccw, turns, triangles[k].0, triangles[k].1, triangles[k].2)
        }),
{
    let n = points.len() as int;
    let ring = full_ring(n);
    let reflex = reflex_corners(points, ccw, turns);
    assert forall|i: int| 0 <= i < n && !reflex[ring[i] as int] implies #[trigger] ring_convex(
        points,
        ccw,
        turns,
        ring,
        i,
    ) by {
        assert(ring[i] == i);
    }
    lemma_ears_turn(points, ccw, turns, inside, ring, reflex, 0, k);
}

/// The corners of `t` are three different corners of the ring.
pub open spec fn on_ring(t: Triangle, ring: Seq<u32>) -> bool {
    &&& ring.contains(t.0)
    &&& ring.contains(t.1)
    &&& ring.contains(t.2)
    &&& t.0 != t.1
    &&& t.1 != t.2
    &&& t.0 != t.2
}

/// No corner stands in the ring twice.
pub open spec fn distinct(ring: Seq<u32>) -> bool {
    forall|j: int, k: int| 0 <= j < k < ring.len() ==> #[trigger] ring[j] != #[trigger] ring[k]
}

/// Every triangle has three different corners of the polygon.
pub proof fn law_triangles_have_distinct_corners<
    P,
    C: Fn(bool, P, P, P) -> bool,
    I: Fn(P, P, P, P) -> bool,
>(points: Seq<P>, ccw: bool, turns: C, inside: I, k: int)
    requires
        3 <= points.len() <= u32::MAX,
        0 <= k < points.len() - 2,
    ensures
        ({
            let t = triangulation(points, ccw, turns, inside)[k];
            &&& t.0 < points.len() && t.1 < points.len() && t.2 < points.len()
            &&& t.0 != t.1 && t.1 != t.2 && t.0 != t.2
        }),
{
    let ring = full_ring(points.len() as int);
    law_triangle_count(points, ccw, turns, inside);
    lemma_clip_on_ring(points, ccw, turns, inside, ring, reflex_corners(points, ccw, turns), 0, k);
}

proof fn lemma_clip_on_ring<P, C: Fn(bool, P, P, P) -> bool, I: Fn(P, P, P, P) -> bool>(
    points: Seq<P>,
    ccw: bool,
    turns: C,
    inside: I,
    ring: Seq<u32>,
    reflex: Seq<bool>,
    stalled: int,
    k: int,
)
    requires
        ring.len() >= 3,
        distinct(ring),
        0 <= k < clip(points, ccw, turns, inside, ring, reflex, stalled).len(),
    ensures
        on_ring(clip(points, ccw, turns, inside, ring, reflex, stalled)[k], ring),
    decreases ring.len(), ring.len() + 1 - stalled,
{
    let m = ring.len() as int;
    assert(ring.contains(ring[0]) && ring.contains(ring[1]) && ring.contains(ring[m - 1]));
    if m > 3 {
        if is_ear(points, inside, ring, reflex) {
            let rest = ring.drop_first();
            let marks = relaxed(points, ccw, turns, rest, reflex);
            if k > 0 {
                assert forall|i: int, j: int| 0 <= i < j < rest.len() implies #[trigger] rest[i]
                    != #[trigger] rest[j] by {
                    assert(ring[i + 1] != ring[j + 1]);
                }
                lemma_clip_on_ring(points, ccw, turns, inside, rest, marks, 0, k - 1);
                let t = clip(points, ccw, turns, inside, rest, marks, 0)[k - 1];
                lemma_contains_drop_first(ring, t.0);
                lemma_contains_drop_first(ring, t.1);
                lemma_contains_drop_first(ring, t.2);
            }
        } else {
            let turned = rotated(ring);
            assert forall|i: int, j: int| 0 <= i < j < turned.len() implies #[trigger] turned[i]
                != #[trigger] turned[j] by {
                assert(turned[i] == ring[i + 1]);
                if j == m - 1 {
                    assert(ring[0] != ring[i + 1]);
                } else {
                    assert(ring[i + 1] != ring[j + 1]);
                }
            }
            if stalled + 1 > m {
                let t = fan(turned)[k];
                assert(turned[0] != turned[k + 1] && turned[0] != turned[k + 2] && turned[k + 1]
                    != turned[k + 2]);
                lemma_contains_rotated(ring, 0);
                lemma_contains_rotated(ring, k + 1);
                lemma_contains_rotated(ring, k + 2);
            } else {
                lemma_clip_on_ring(points, ccw, turns, inside, turned, reflex, stalled + 1, k);
                let t = clip(points, ccw, turns, inside, turned, reflex, stalled + 1)[k];
                let a = choose|a: int| 0 <= a < m && turned[a] == t.0;
                let b = choose|b: int| 0 <= b < m && turned[b] == t.1;
                let c = choose|c: int| 0 <= c < m && turned[c] == t.2;
                lemma_contains_rotated(ring, a);
                lemma_contains_rotated(ring, b);
                lemma_contains_rotated(ring, c);
            }
        }
    }
}

proof fn lemma_contains_drop_first(ring: Seq<u32>, x: u32)
    requires
        ring.len() > 0,
        ring.drop_first().contains(x),
    ensures
        ring.contains(x),
{
    let at = choose|at: int| 0 <= at < ring.len() - 1 && ring.drop_first()[at] == x;
    assert(ring[at + 1] == x);
}

proof fn lemma_contains_rotated(ring: Seq<u32>, k: int)
    requires
        0 <= k < ring.len(),
    ensures
        ring.contains(rotated(ring)[k]),
{
    if k == ring.len() - 1 {
        assert(rotated(ring)[k] == ring[0]);
    } else {
        assert(rotated(ring)[k] == ring[k + 1]);
    }
}

/// The doubled signed area between the origin and the edge from corner `i` to
/// corner `j`, on whole-number coordinates.
pub open spec fn edge(xs: Seq<int>, ys: Seq<int>, i: u32, j: u32) -> int {
    xs[i as int] * ys[j as int] - xs[j as int] * ys[i as int]
}

/// The doubled signed area of a triangle.
pub open spec fn doubled_area(xs: Seq<int>, ys: Seq<int>, t: Triangle) -> int {
    edge(xs, ys, t.0, t.1) + edge(xs, ys, t.1, t.2) + edge(xs, ys, t.2, t.0)
}

/// The doubled signed areas of triangles, added up.
pub open spec fn doubled_areas(xs: Seq<int>, ys: Seq<int>, ts: Seq<Triangle>) -> int
    decreases ts.len(),
{
    if ts.len() == 0 {
        0
    } else {
        doubled_areas(xs, ys, ts.drop_last()) + doubled_area(xs, ys, ts.last())
    }
}

/// The edges along the corners of `ring`, without the one that closes it.
pub open spec fn path(xs: Seq<int>, ys: Seq<int>, ring: Seq<u32>) -> int
    decreases ring.len(),
{
    if ring.len() < 2 {
        0
    } else {
        path(xs, ys, ring.drop_last()) + edge(xs, ys, ring[ring.len() - 2], ring.last())
    }
}

/// The doubled signed area of the polygon on `ring`.
pub open spec fn shoelace(xs: Seq<int>, ys: Seq<int>, ring: Seq<u32>) -> int {
    path(xs, ys, ring) + edge(xs, ys, ring.last(), ring[0])
}

proof fn lemma_path_front(xs: Seq<int>, ys: Seq<int>, ring: Seq<u32>)
    requires
        ring.len() >= 2,
    ensures
        path(xs, ys, ring) == edge(xs, ys, ring[0], ring[1]) + path(xs, ys, ring.drop_first()),
    decreases ring.len(),
{
    if ring.len() > 2 {
        lemma_path_front(xs, ys, ring.drop_last());
        assert(ring.drop_last().drop_first() =~= ring.drop_first().drop_last());
    } else {
        assert(path(xs, ys, ring.drop_first()) == 0);
        assert(path(xs, ys, ring.drop_last()) == 0);
    }
}

proof fn lemma_doubled_areas_concat(xs: Seq<int>, ys: Seq<int>, a: Seq<Triangle>, b: Seq<Triangle>)
    ensures
        doubled_areas(xs, ys, a + b) == doubled_areas(xs, ys, a) + doubled_areas(xs, ys, b),
    decreases b.len(),
{
    if b.len() == 0 {
        assert(a + b =~= a);
    } else {
        assert((a + b).drop_last() =~= a + b.drop_last());
        lemma_doubled_areas_concat(xs, ys, a, b.drop_last());
    }
}

proof fn lemma_single_area(xs: Seq<int>, ys: Seq<int>, t: Triangle)
    ensures
        doubled_areas(xs, ys, seq![t]) == doubled_area(xs, ys, t),
{
    assert(seq![t].drop_last() =~= Seq::<Triangle>::empty());
    reveal_with_fuel(doubled_areas, 2);
}

proof fn lemma_fan_area(xs: Seq<int>, ys: Seq<int>, ring: Seq<u32>)
    requires
        ring.len() >= 2,
    ensures
        doubled_areas(xs, ys, fan(ring)) == shoelace(xs, ys, ring),
    decreases ring.len(),
{
    let m = ring.len() as int;
    if m == 2 {
        assert(fan(ring) =~= Seq::<Triangle>::empty());
        reveal_with_fuel(path, 2);
    } else {
        let head = ring.drop_last();
        lemma_fan_area(xs, ys, head);
        assert(fan(ring).drop_last() =~= fan(head));
        assert(fan(ring).last() == (ring[0], ring[m - 2], ring[m - 1]));
    }
}

proof fn lemma_clip_area<P, C: Fn(bool, P, P, P) -> bool, I: Fn(P, P, P, P) -> bool>(
    points: Seq<P>,
    ccw: bool,
    turns: C,
    inside: I,
    ring: Seq<u32>,
    reflex: Seq<bool>,
    stalled: int,
    xs: Seq<int>,
    ys: Seq<int>,
)
    requires
        ring.len() >= 3,
    ensures
        doubled_areas(xs, ys, clip(points, ccw, turns, inside, ring, reflex, stalled)) == shoelace(
            xs,
            ys,
            ring,
        ),
    decreases ring.len(), ring.len() + 1 - stalled,
{
    let m = ring.len() as int;
    lemma_path_front(xs, ys, ring);
    let rest = ring.drop_first();
    if m <= 3 {
        lemma_single_area(xs, ys, (ring.last(), ring[0], ring[1]));
        reveal_with_fuel(path, 3);
    } else if is_ear(points, inside, ring, reflex) {
        let t = (ring.last(), ring[0], ring[1]);
        let marks = relaxed(points, ccw, turns, rest, reflex);
        lemma_clip_area(points, ccw, turns, inside, rest, marks, 0, xs, ys);
        lemma_single_area(xs, ys, t);
        lemma_doubled_areas_concat(
            xs,
            ys,
            seq![t],
            clip(points, ccw, turns, inside, rest, marks, 0),
        );
    } else {
        let turned = rotated(ring);
        assert(turned.drop_last() =~= rest);
        assert(shoelace(xs, ys, turned) == shoelace(xs, ys, ring));
        if stalled + 1 > m {
            lemma_fan_area(xs, ys, turned);
        } else {
            lemma_clip_area(points, ccw, turns, inside, turned, reflex, stalled + 1, xs, ys);
        }
    }
}

/// Triangulating keeps the area: on whole-number coordinates the signed areas
/// of the triangles add up to that of the polygon, whatever the two tests
/// answer.
pub proof fn law_triangulation_keeps_area<P, C: Fn(bool, P, P, P) -> bool, I: Fn(P, P, P, P) -> bool>(
    points: Seq<P>,
    ccw: bool,
    turns: C,
    inside: I,
    xs: Seq<int>,
    ys: Seq<int>,
)
    requires
        points.len() >= 3,
    ensures
        doubled_areas(xs, ys, triangulation(points, ccw, turns, inside)) == shoelace(
            xs,
            ys,
            full_ring(points.len() as int),
        ),
{
    lemma_clip_area(
        points,
        ccw,
        turns,
        inside,
        full_ring(points.len() as int),
        reflex_corners(points, ccw, turns),
        0,
        xs,
        ys,
    );
}

/// The corner `i` of a polygon turns the polygon's way, between its two neighbours
/// round the polygon.
pub open spec fn turns_out<P, C: Fn(bool, P, P, P) -> bool>(
    points: Seq<P>,
    ccw: bool,
    turns: C,
    i: int,
) -> bool {
    let n = points.len() as int;
    turns.ensures((ccw, points[(i + n - 1) % n], points[i], points[(i + 1) % n]), true)
}

/// The corner `i` of a polygon can be cut off: it turns the polygon's way, and no
/// corner that turns the other way lies between it and its neighbours.
pub open spec fn can_be_cut<P, C: Fn(bool, P, P, P) -> bool, I: Fn(P, P, P, P) -> bool>(
    points: Seq<P>,
    ccw: bool,
    turns: C,
    inside: I,
    i: int,
) -> bool {
    let n = points.len() as int;
    let (a, c) = ((i + n - 1) % n, (i + 1) % n);
    &&& turns_out(points, ccw, turns, i)
    &&& forall|j: int|
        0 <= j < n && j != a && j != c && !#[trigger] turns_out(points, ccw, turns, j)
            ==> !inside.ensures((points[j], points[a], points[i], points[c]), true)
}

spec fn turned(n: int, i: int) -> Seq<u32> {
    Seq::new(n as nat, |q: int| ((i + q) % n) as u32)
}

proof fn lemma_wraps(n: int, i: int)
    requires
        n >= 1,
        0 <= i < n,
    ensures
        (i + n - 1) % n == (if i == 0 {
            n - 1
        } else {
            i - 1
        }),
        (i + 1) % n == (if i == n - 1 {
            0
        } else {
            i + 1
        }),
{
    if i == 0 {
        assert((n - 1) % n == n - 1) by (nonlinear_arith)
            requires
                n >= 1,
        ;
    } else {
        assert((i + n - 1) % n == i - 1) by (nonlinear_arith)
            requires
                1 <= i < n,
        ;
    }
    if i == n - 1 {
        assert((i + 1) % n == 0) by (nonlinear_arith)
            requires
                i + 1 == n,
                n >= 1,
        ;
    } else {
        assert((i + 1) % n == i + 1) by (nonlinear_arith)
            requires
                0 <= i + 1 < n,
        ;
    }
}

proof fn lemma_turned(n: int, i: int)
    requires
        2 <= n <= u32::MAX,
        0 <= i < n,
    ensures
        turned(n, i).len() == n,
        turned(n, i)[0] == i,
        turned(n, i)[1] == (i + 1) % n,
        turned(n, i).last() == (i + n - 1) % n,
        rotated(turned(n, i)) == turned(n, i + 1),
        i == 0 ==> turned(n, i) == full_ring(n),
{
    lemma_wraps(n, i);
    assert(i % n == i) by (nonlinear_arith)
        requires
            0 <= i < n,
    ;
    assert((i + n) % n == i) by (nonlinear_arith)
        requires
            0 <= i < n,
    ;
    let (left, right) = (rotated(turned(n, i)), turned(n, i + 1));
    assert forall|q: int| 0 <= q < n implies left[q] == right[q] by {
        assert(i + 1 + q == i + (q + 1));
        if q == n - 1 {
            assert(i + 1 + q == i + n);
        }
    }
    assert(left =~= right);
    if i == 0 {
        assert forall|q: int| 0 <= q < n implies turned(n, 0)[q] == full_ring(n)[q] by {
            assert(q % n == q) by (nonlinear_arith)
                requires
                    0 <= q < n,
            ;
        }
        assert(turned(n, 0) =~= full_ring(n));
    }
}

proof fn lemma_cut<P, C: Fn(bool, P, P, P) -> bool, I: Fn(P, P, P, P) -> bool>(
    points: Seq<P>,
    ccw: bool,
    turns: C,
    inside: I,
    i: int,
)
    requires
        3 < points.len() <= u32::MAX,
        0 <= i < points.len(),
    ensures
        is_ear(
            points,
            inside,
            turned(points.len() as int, i),
            reflex_corners(points, ccw, turns),
        ) <==> can_be_cut(points, ccw, turns, inside, i),
{
    let n = points.len() as int;
    let ring = turned(n, i);
    let reflex = reflex_corners(points, ccw, turns);
    lemma_turned(n, i);
    assert forall|j: int| 0 <= j < n implies #[trigger] reflex[j] == !turns_out(
        points,
        ccw,
        turns,
        j,
    ) by {
        lemma_wraps(n, j);
    }
    let (a, c) = ((i + n - 1) % n, (i + 1) % n);
    lemma_wraps(n, i);
    assert(reflex[i] == !turns_out(points, ccw, turns, i));
    if can_be_cut(points, ccw, turns, inside, i) {
        assert forall|j: u32| !#[trigger]
            spoils(points, inside, reflex, j, ring.last(), ring[0], ring[1]) by {
            if j < n {
                assert(reflex[j as int] == !turns_out(points, ccw, turns, j as int));
            }
        }
    }
    if is_ear(points, inside, ring, reflex) {
        assert forall|j: int|
            0 <= j < n && j != a && j != c && !#[trigger] turns_out(
                points,
                ccw,
                turns,
                j,
            ) implies !inside.ensures((points[j], points[a], points[i], points[c]), true) by {
            assert(reflex[j] == !turns_out(points, ccw, turns, j));
            assert(!spoils(points, inside, reflex, j as u32, ring.last(), ring[0], ring[1]));
        }
    }
}

proof fn lemma_clip_from<P, C: Fn(bool, P, P, P) -> bool, I: Fn(P, P, P, P) -> bool>(
    points: Seq<P>,
    ccw: bool,
    turns: C,
    inside: I,
    i: int,
    k: int,
)
    requires
        3 < points.len() <= u32::MAX,
        0 <= k <= i < points.len(),
        can_be_cut(points, ccw, turns, inside, i),
        forall|j: int| 0 <= j < i ==> !#[trigger] can_be_cut(points, ccw, turns, inside, j),
    ensures
        ({
            let n = points.len() as int;
            let t = clip(
                points,
                ccw,
                turns,
                inside,
                turned(n, k),
                reflex_corners(points, ccw, turns),
                k,
            );
            t.len() > 0 && t[0] == (((i + n - 1) % n) as u32, i as u32, ((i + 1) % n) as u32)
        }),
    decreases i - k,
{
    let n = points.len() as int;
    lemma_turned(n, k);
    lemma_cut(points, ccw, turns, inside, k);
    if k < i {
        assert(!can_be_cut(points, ccw, turns, inside, k));
        lemma_clip_from(points, ccw, turns, inside, i, k + 1);
    }
}

/// The first triangle of a fill is the first corner that can be cut off, between
/// its two neighbours, wherever the polygon has one.
pub proof fn law_first_corner_that_can_be_cut_is<
    P,
    C: Fn(bool, P, P, P) -> bool,
    I: Fn(P, P, P, P) -> bool,
>(points: Seq<P>, ccw: bool, turns: C, inside: I, i: int)
    requires
        3 < points.len() <= u32::MAX,
        0 <= i < points.len(),
        can_be_cut(points, ccw, turns, inside, i),
        forall|j: int| 0 <= j < i ==> !#[trigger] can_be_cut(points, ccw, turns, inside, j),
    ensures
        ({
            let n = points.len() as int;
            let t = triangulation(points, ccw, turns, inside);
            &&& t.len() > 0
            &&& t[0].0 == (i + n - 1) % n
            &&& t[0].1 == i
            &&& t[0].2 == (i + 1) % n
        }),
{
    let n = points.len() as int;
    lemma_turned(n, 0);
    lemma_wraps(n, i);
    lemma_clip_from(points, ccw, turns, inside, i, 0);
}

/// A polygon's area is summed over its edges, each once and in order: whatever list
/// the kernel keeps of the edges it is given, it gets every point with the one
/// behind it, and the last with the first.
pub proof fn law_area_goes_round<P, A, T: Fn(A, P, P) -> A>(
    points: Seq<P>,
    zero: A,
    term: T,
    edges: spec_fn(A) -> Seq<(P, P)>,
    k: int,
)
    requires
        0 <= k <= points.len(),
        edges(zero).len() == 0,
        forall|s: A, a: P, b: P| #[trigger]
            edges(answer3(term, s, a, b)) == edges(s).push((a, b)),
    ensures
        edges(area_sum(points, zero, term, k)) == Seq::new(
            k as nat,
            |i: int| (points[i], points[(i + 1) % points.len() as int]),
        ),
    decreases k,
{
    let n = points.len() as int;
    let all = Seq::new(k as nat, |i: int| (points[i], points[(i + 1) % n]));
    if k > 0 {
        law_area_goes_round(points, zero, term, edges, k - 1);
        lemma_wraps(n, k - 1);
    }
    assert(edges(area_sum(points, zero, term, k)) =~= all);
}

proof fn lemma_clip_stalls<P, C: Fn(bool, P, P, P) -> bool, I: Fn(P, P, P, P) -> bool>(
    points: Seq<P>,
    ccw: bool,
    turns: C,
    inside: I,
    k: int,
)
    requires
        3 < points.len() < u32::MAX,
        0 <= k <= points.len(),
        forall|j: int|
            0 <= j < points.len() ==> !#[trigger] can_be_cut(points, ccw, turns, inside, j),
    ensures
        ({
            let n = points.len() as int;
            clip(
                points,
                ccw,
                turns,
                inside,
                turned(n, k % n),
                reflex_corners(points, ccw, turns),
                k,
            ) == fan(turned(n, 1))
        }),
    decreases points.len() - k,
{
    let n = points.len() as int;
    if k < n {
        assert(k % n == k) by (nonlinear_arith)
            requires
                0 <= k < n,
        ;
        lemma_turned(n, k);
        lemma_cut(points, ccw, turns, inside, k);
        assert(!can_be_cut(points, ccw, turns, inside, k));
        lemma_clip_stalls(points, ccw, turns, inside, k + 1);
        if k + 1 == n {
            lemma_turns_round(n);
        } else {
            assert((k + 1) % n == k + 1) by (nonlinear_arith)
                requires
                    0 <= k + 1 < n,
            ;
        }
    } else {
        assert(n % n == 0) by (nonlinear_arith)
            requires
                n > 0,
        ;
        lemma_turned(n, 0);
        lemma_cut(points, ccw, turns, inside, 0);
        assert(!can_be_cut(points, ccw, turns, inside, 0));
    }
}

proof fn lemma_turns_round(n: int)
    requires
        n >= 1,
    ensures
        n % n == 0,
        turned(n, n) == turned(n, 0),
{
    assert(n % n == 0) by (nonlinear_arith)
        requires
            n >= 1,
    ;
    assert forall|q: int| 0 <= q < n implies turned(n, n)[q] == turned(n, 0)[q] by {
        assert((n + q) % n == q % n) by (nonlinear_arith)
            requires
                n >= 1,
                0 <= q < n,
        ;
    }
    assert(turned(n, n) =~= turned(n, 0));
}

/// A polygon of which no corner can be cut off, such as one that crosses itself, is
/// fanned from its second corner: each triangle lies between that corner and two
/// neighbours further round.
pub proof fn law_polygons_without_an_ear_are_fanned<
    P,
    C: Fn(bool, P, P, P) -> bool,
    I: Fn(P, P, P, P) -> bool,
>(points: Seq<P>, ccw: bool, turns: C, inside: I, k: int)
    requires
        3 < points.len() < u32::MAX,
        0 <= k < points.len() - 2,
        forall|j: int|
            0 <= j < points.len() ==> !#[trigger] can_be_cut(points, ccw, turns, inside, j),
    ensures
        ({
            let n = points.len() as int;
            let t = triangulation(points, ccw, turns, inside);
            &&& t.len() == n - 2
            &&& t[k].0 == 1
            &&& t[k].1 == (k + 2) % n
            &&& t[k].2 == (k + 3) % n
        }),
{
    let n = points.len() as int;
    lemma_turned(n, 0);
    lemma_turned(n, 1);
    assert(0int % n == 0);
    lemma_clip_stalls(points, ccw, turns, inside, 0);
    assert(1 + (k + 1) == k + 2 && 1 + (k + 2) == k + 3);
    assert(0 <= (k + 2) % n < n && 0 <= (k + 3) % n < n) by (nonlinear_arith)
        requires
            n > 0,
    ;
}

/// A corner that has been cut off leaves the ring to its neighbours: these turn the
/// other way afterwards only if they did so before and do so still between the
/// neighbours that they now have; all other corners stay as they were.
pub proof fn law_cuts_only_straighten_their_neighbours<P, C: Fn(bool, P, P, P) -> bool>(
    points: Seq<P>,
    ccw: bool,
    turns: C,
    ring: Seq<u32>,
    reflex: Seq<bool>,
    j: int,
)
    requires
        ring.len() >= 3,
        reflex.len() == points.len(),
        ring[ring.len() - 1] != ring[0],
        ring[ring.len() - 1] < points.len(),
        ring[0] < points.len(),
        0 <= j < points.len(),
    ensures
        ({
            let after = relaxed(points, ccw, turns, ring, reflex);
            let m = ring.len() as int;
            let (a, c) = (ring[m - 1], ring[0]);
            let before_a = points[ring[m - 2] as int];
            let behind_c = points[ring[1] as int];
            let a_turns = turns.ensures((ccw, before_a, points[a as int], points[c as int]), true);
            let c_turns = turns.ensures((ccw, points[a as int], points[c as int], behind_c), true);
            &&& after.len() == reflex.len()
            &&& after[j] ==> reflex[j]
            &&& j == a ==> (after[j] <==> reflex[j] && !a_turns)
            &&& j == c ==> (after[j] <==> reflex[j] && !c_turns)
            &&& j != a && j != c ==> after[j] == reflex[j]
        }),
{
}

} // verus!
