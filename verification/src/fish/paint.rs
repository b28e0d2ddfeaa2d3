//! Painting the parts of a fish: filled polygons, feathered outlines and
//! ellipses, appended to a mesh in painter order.

use vstd::prelude::*;

use crate::fish::ear::{
    area_made, area_sum, ear_clip, is_ccw, law_triangle_count,
    law_triangles_have_distinct_corners, triangulation, triangulation_told, Triangle,
};
use crate::mesh::Mesh;
use crate::oracle::{
    answer1, answer3, answered1, answered2, answered3, lemma_answer1, lemma_answer2, lemma_answer3,
    single_valued1, single_valued2, single_valued3, single_valued4,
};

verus! {

/// A colour with its opacity.
#[derive(Clone, Copy, Debug, PartialEq, Eq, Structural)]
pub struct Rgba {
    pub r: u8,
    pub g: u8,
    pub b: u8,
    pub a: u8,
}

impl Rgba {
    /// The colour at no opacity.
    pub open spec fn clear(self) -> Rgba {
        Rgba { a: 0, ..self }
    }

    /// The colour at no opacity.
    pub fn faded(self) -> (c: Rgba)
        ensures
            c == self.clear(),
    {
        Rgba { r: self.r, g: self.g, b: self.b, a: 0 }
    }
}

/// A painted vertex: a place and its colour.
#[derive(Clone, Copy, Debug, PartialEq)]
pub struct Dab<Q> {
    pub at: Q,
    pub color: Rgba,
}

/// The corner `r` of a triangle.
pub open spec fn corner(t: Triangle, r: int) -> int {
    if r == 0 {
        t.0 as int
    } else if r == 1 {
        t.1 as int
    } else {
        t.2 as int
    }
}

/// The indices of triangles whose corners start at vertex `base`.
pub open spec fn triangle_indices(ts: Seq<Triangle>, base: int) -> Seq<u32> {
    Seq::new(3 * ts.len(), |q: int| (base + corner(ts[q / 3], q % 3)) as u32)
}

/// How many of the first `n` points remain when those at the end that coincide
/// with the first are left off.
pub open spec fn open_len<P, S: Fn(P, P) -> bool>(points: Seq<P>, same: S, n: int) -> int
    decreases n,
{
    if n >= 2 && same.ensures((points[0], points[n - 1]), true) {
        open_len(points, same, n - 1)
    } else {
        n
    }
}

/// The vertices of points in one colour, where `place` puts them.
pub open spec fn shaded<P, Q, H: Fn(P) -> Q>(points: Seq<P>, color: Rgba, place: H) -> Seq<
    Dab<Q>,
> {
    points.map(|_k: int, p: P| Dab { at: answer1(place, p), color })
}

/// The places are answers that `place` gave.
pub open spec fn shade_made<P, Q, H: Fn(P) -> Q>(points: Seq<P>, place: H) -> bool {
    forall|k: int| 0 <= k < points.len() ==> answered1(place, #[trigger] points[k])
}

/// `same` has told which points at the end of the first `n` coincide with the
/// first.
pub open spec fn open_made<P, S: Fn(P, P) -> bool>(points: Seq<P>, same: S, n: int) -> bool
    decreases n,
{
    n >= 2 ==> {
        &&& answered2(same, points[0], points[n - 1])
        &&& same.ensures((points[0], points[n - 1]), true) ==> open_made(points, same, n - 1)
    }
}

/// The points left off a ring for its fill all coincide with its first point, and
/// the last that is kept does not, unless only the first is kept.
pub proof fn law_fills_leave_off_closing_points<P, S: Fn(P, P) -> bool>(
    points: Seq<P>,
    same: S,
    n: int,
)
    requires
        0 <= n <= points.len(),
    ensures
        ({
            let m = open_len(points, same, n);
            &&& 0 <= m <= n
            &&& n >= 1 ==> m >= 1
            &&& forall|j: int| m <= j < n ==> same.ensures((points[0], #[trigger] points[j]), true)
            &&& m >= 2 ==> !same.ensures((points[0], points[m - 1]), true)
        }),
    decreases n,
{
    if n >= 2 && same.ensures((points[0], points[n - 1]), true) {
        law_fills_leave_off_closing_points(points, same, n - 1);
    }
}

/// A fill's triangle `j` has the three corners of that triangle of the ring, in
/// their order, behind the vertices that were there.
pub proof fn law_fills_show_their_triangles(ts: Seq<Triangle>, base: int, j: int)
    requires
        0 <= base,
        0 <= j < ts.len(),
        base + ts[j].0 <= u32::MAX,
        base + ts[j].1 <= u32::MAX,
        base + ts[j].2 <= u32::MAX,
    ensures
        triangle_indices(ts, base).len() == 3 * ts.len(),
        triangle_indices(ts, base)[3 * j] == base + ts[j].0,
        triangle_indices(ts, base)[3 * j + 1] == base + ts[j].1,
        triangle_indices(ts, base)[3 * j + 2] == base + ts[j].2,
{
    assert((3 * j) / 3 == j && (3 * j) % 3 == 0);
    assert((3 * j + 1) / 3 == j && (3 * j + 1) % 3 == 1);
    assert((3 * j + 2) / 3 == j && (3 * j + 2) % 3 == 2);
}

/// Fill a simple polygon by ear clipping. A closing point that repeats the
/// first is left off; fewer than three points fill nothing.
pub fn fill_polygon<
    P: Copy,
    Q,
    A,
    S: Fn(P, P) -> bool,
    H: Fn(P) -> Q,
    T: Fn(A, P, P) -> A,
    G: Fn(A) -> bool,
    C: Fn(bool, P, P, P) -> bool,
    I: Fn(P, P, P, P) -> bool,
>(
    mesh: &mut Mesh<Dab<Q>>,
    points: &Vec<P>,
    color: Rgba,
    same: S,
    place: H,
    zero: A,
    term: T,
    positive: G,
    turns: C,
    inside: I,
)
    requires
        old(mesh).wf(),
        old(mesh).vertices.len() + points.len() < u32::MAX,
        single_valued2(same),
        single_valued1(place),
        single_valued3(term),
        single_valued1(positive),
        single_valued4(turns),
        single_valued4(inside),
        forall|a: P, b: P| same.requires((a, b)),
        forall|p: P| place.requires((p,)),
        forall|s: A, a: P, b: P| term.requires((s, a, b)),
        forall|s: A| positive.requires((s,)),
        forall|w: bool, a: P, b: P, c: P| turns.requires((w, a, b, c)),
        forall|p: P, a: P, b: P, c: P| inside.requires((p, a, b, c)),
    ensures
        final(mesh).wf(),
        open_made(points@, same, points.len() as int),
        ({
            let n = open_len(points@, same, points.len() as int);
            let ring = points@.take(n);
            if n < 3 {
                *final(mesh) == *old(mesh)
            } else {
                &&& final(mesh).vertices@ == old(mesh).vertices@ + shaded(ring, color, place)
                &&& final(mesh).indices@ == old(mesh).indices@ + triangle_indices(
                    triangulation(ring, is_ccw(ring, zero, term, positive), turns, inside),
                    old(mesh).vertices.len() as int,
                )
                &&& shade_made(ring, place)
                &&& area_made(ring, zero, term, n)
                &&& positive.ensures(
                    (area_sum(ring, zero, term, n),),
                    is_ccw(ring, zero, term, positive),
                )
                &&& triangulation_told(
                    ring,
                    is_ccw(ring, zero, term, positive),
                    turns,
                    inside,
                )
            }
        }),
{
    let mut n: usize = points.len();
    let mut closing: bool = true;
    while n >= 2 && closing
        invariant
            n <= points.len(),
            single_valued2(same),
            forall|a: P, b: P| same.requires((a, b)),
            closing ==> open_len(points@, same, n as int) == open_len(
                points@,
                same,
                points.len() as int,
            ),
            closing ==> (open_made(points@, same, n as int) ==> open_made(
                points@,
                same,
                points.len() as int,
            )),
            !closing ==> n == open_len(points@, same, points.len() as int),
            !closing ==> open_made(points@, same, points.len() as int),
        decreases
                n + (if closing {
                    1int
                } else {
                    0int
                }),
    {
        closing = same(points[0], points[n - 1]);
        proof {
            lemma_answer2(same, points[0], points[n - 1], closing);
        }
        if closing {
            n -= 1;
        }
    }
    assert(n < 2 ==> open_made(points@, same, n as int));
    if n < 3 {
        return;
    }
    let base: u32 = mesh.vertices.len() as u32;
    let mut ring: Vec<P> = Vec::new();
    let mut k: usize = 0;
    let ghost (vertices, indices) = (mesh.vertices@, mesh.indices@);
    assert(mesh.vertices@ =~= vertices + shaded(ring@, color, place));
    while k < n
        invariant
            k <= n <= points.len(),
            vertices.len() + points.len() < u32::MAX,
            single_valued1(place),
            forall|p: P| place.requires((p,)),
            ring@ == points@.take(k as int),
            mesh.wf(),
            mesh.vertices@ == vertices + shaded(ring@, color, place),
            mesh.indices@ == indices,
            shade_made(ring@, place),
        decreases n - k,
    {
        let p: P = points[k];
        let at: Q = place(p);
        proof {
            lemma_answer1(place, p, at);
        }
        mesh.vertex(Dab { at, color });
        ring.push(p);
        k += 1;
        assert(ring@ =~= points@.take(k as int));
        assert(mesh.vertices@ =~= vertices + shaded(ring@, color, place));
    }
    let ghost start = zero;
    let triangles: Vec<Triangle> = ear_clip(&ring, zero, term, positive, turns, inside);
    let ghost ccw = is_ccw(ring@, start, term, positive);
    let ghost all = triangle_indices(triangles@, base as int);
    let mut j: usize = 0;
    assert(mesh.indices@ =~= indices + all.take(0));
    proof {
        law_triangle_count(ring@, ccw, turns, inside);
    }
    while j < triangles.len()
        invariant
            j <= triangles.len(),
            3 <= ring.len() == n <= points.len(),
            base == vertices.len(),
            vertices.len() + points.len() < u32::MAX,
            triangles@ == triangulation(ring@, ccw, turns, inside),
            triangles.len() == ring.len() - 2,
            all == triangle_indices(triangles@, base as int),
            mesh.wf(),
            mesh.vertices@ == vertices + shaded(ring@, color, place),
            mesh.indices@ == indices + all.take(3 * j),
        decreases triangles.len() - j,
    {
        let t: Triangle = triangles[j];
        proof {
            law_triangles_have_distinct_corners(ring@, ccw, turns, inside, j as int);
        }
        mesh.triangle(base + t.0, base + t.1, base + t.2);
        assert(mesh.indices@ =~= indices + all.take(3 * (j + 1)));
        j += 1;
    }
    assert(all.take(3 * j) =~= all);
}

/// The four vertices across a stroke, from edge to edge.
pub type Row<V> = (V, V, V, V);

/// The vertex `r` of a row.
pub open spec fn row_part<V>(row: Row<V>, r: int) -> V {
    if r == 0 {
        row.0
    } else if r == 1 {
        row.1
    } else if r == 2 {
        row.2
    } else {
        row.3
    }
}

/// The point before the one at `i` along a line; the last before the first
/// where the line is closed.
pub open spec fn before<P>(points: Seq<P>, closed: bool, i: int) -> Option<P> {
    if i > 0 {
        Some(points[i - 1])
    } else if closed {
        Some(points[points.len() - 1])
    } else {
        None
    }
}

/// The point behind the one at `i` along a line; the first behind the last
/// where the line is closed.
pub open spec fn behind<P>(points: Seq<P>, closed: bool, i: int) -> Option<P> {
    if i + 1 < points.len() {
        Some(points[i + 1])
    } else if closed {
        Some(points[0])
    } else {
        None
    }
}

/// The vertices of a stroke: one row for each point, whose inner two have the
/// colour and whose outer two fade it out.
pub open spec fn stroke_vertices<P, Q, R: Fn(Option<P>, P, Option<P>) -> Row<Q>>(
    points: Seq<P>,
    closed: bool,
    color: Rgba,
    row: R,
) -> Seq<Dab<Q>> {
    Seq::new(
        4 * points.len(),
        |q: int|
            Dab {
                at: row_part(
                    answer3(
                        row,
                        before(points, closed, q / 4),
                        points[q / 4],
                        behind(points, closed, q / 4),
                    ),
                    q % 4,
                ),
                color: if q % 4 == 1 || q % 4 == 2 {
                    color
                } else {
                    color.clear()
                },
            },
    )
}

/// The rows of the first `k` points are answers that `row` gave.
pub open spec fn stroke_made<P, V, R: Fn(Option<P>, P, Option<P>) -> Row<V>>(
    points: Seq<P>,
    closed: bool,
    row: R,
    k: int,
) -> bool {
    forall|i: int|
        0 <= i < k ==> answered3(
            row,
            #[trigger] before(points, closed, i),
            points[i],
            behind(points, closed, i),
        )
}

/// The segments of a line through `n` points.
pub open spec fn segment_count(n: int, closed: bool) -> int {
    if closed {
        n
    } else {
        n - 1
    }
}

/// The index `q` of a stroke along `n` points whose rows start at vertex
/// `base`: three strips of two triangles for each segment.
pub open spec fn stroke_index(base: int, n: int, q: int) -> int {
    let i = q / 18;
    let k = (q % 18) / 6;
    let a = base + 4 * i + k;
    let b = base + 4 * (if i + 1 == n {
        0
    } else {
        i + 1
    }) + k;
    let r = q % 6;
    if r == 0 || r == 3 {
        a
    } else if r == 1 {
        b
    } else if r == 2 || r == 4 {
        b + 1
    } else {
        a + 1
    }
}

/// The indices of a stroke.
pub open spec fn stroke_indices(base: int, n: int, closed: bool) -> Seq<u32> {
    Seq::new((18 * segment_count(n, closed)) as nat, |q: int| stroke_index(base, n, q) as u32)
}

/// The rows of a stroke stand in the order of its points, four vertices each, and
/// each is made of its point and of the two points next to it: the one directly
/// before and the one directly behind. Only the ends of an open line lack one; a
/// closed line goes on from its last point to its first. The outer vertices of
/// every row have the colour at no opacity, the inner ones have it as it is.
pub proof fn law_rows_lie_between_their_neighbours<
    P,
    Q,
    R: Fn(Option<P>, P, Option<P>) -> Row<Q>,
>(points: Seq<P>, closed: bool, color: Rgba, row: R, i: int)
    requires
        0 <= i < points.len(),
    ensures
        ({
            let n = points.len() as int;
            let v = stroke_vertices(points, closed, color, row);
            let four = (v[4 * i].at, v[4 * i + 1].at, v[4 * i + 2].at, v[4 * i + 3].at);
            let none = None::<P>;
            &&& v.len() == 4 * n
            &&& 0 < i < n - 1 ==> four == answer3(
                row,
                Some(points[i - 1]),
                points[i],
                Some(points[i + 1]),
            )
            &&& 0 == i < n - 1 ==> four == answer3(
                row,
                if closed {
                    Some(points[n - 1])
                } else {
                    none
                },
                points[0],
                Some(points[1]),
            )
            &&& 0 < i == n - 1 ==> four == answer3(
                row,
                Some(points[n - 2]),
                points[n - 1],
                if closed {
                    Some(points[0])
                } else {
                    none
                },
            )
            &&& v[4 * i + 1].color == color && v[4 * i + 2].color == color
            &&& v[4 * i].color == (Rgba { r: color.r, g: color.g, b: color.b, a: 0 })
            &&& v[4 * i + 3].color == (Rgba { r: color.r, g: color.g, b: color.b, a: 0 })
        }),
{
    assert((4 * i) / 4 == i && (4 * i) % 4 == 0);
    assert((4 * i + 1) / 4 == i && (4 * i + 1) % 4 == 1);
    assert((4 * i + 2) / 4 == i && (4 * i + 2) % 4 == 2);
    assert((4 * i + 3) / 4 == i && (4 * i + 3) % 4 == 3);
}

/// The strips of a stroke join each row to the next, and a closed line's last row
/// to its first: three strips of two triangles, each between two neighbours of
/// the one row and the two across from them.
pub proof fn law_stroke_strips_join_rows(base: int, n: int, closed: bool, i: int, k: int)
    requires
        0 <= base,
        base + 4 * n <= u32::MAX,
        n >= 2,
        0 <= i < n,
        !closed ==> i < n - 1,
        0 <= k < 3,
    ensures
        ({
            let all = stroke_indices(base, n, closed);
            let q = 18 * i + 6 * k;
            let near = base + 4 * i + k;
            let far = base + 4 * ((i + 1) % n) + k;
            &&& closed ==> all.len() == 18 * n
            &&& !closed ==> all.len() == 18 * (n - 1)
            &&& all[q] == near && all[q + 1] == far && all[q + 2] == far + 1
            &&& all[q + 3] == near && all[q + 4] == far + 1 && all[q + 5] == near + 1
        }),
{
    let q = 18 * i + 6 * k;
    let next = (i + 1) % n;
    if i + 1 == n {
        assert(next == 0) by (nonlinear_arith)
            requires
                next == (i + 1) % n,
                i + 1 == n,
                n >= 2,
        ;
    } else {
        assert(next == i + 1) by (nonlinear_arith)
            requires
                next == (i + 1) % n,
                0 <= i + 1 < n,
        ;
    }
    assert(q / 18 == i && (q % 18) / 6 == k && q % 6 == 0);
    assert((q + 1) / 18 == i && ((q + 1) % 18) / 6 == k && (q + 1) % 6 == 1);
    assert((q + 2) / 18 == i && ((q + 2) % 18) / 6 == k && (q + 2) % 6 == 2);
    assert((q + 3) / 18 == i && ((q + 3) % 18) / 6 == k && (q + 3) % 6 == 3);
    assert((q + 4) / 18 == i && ((q + 4) % 18) / 6 == k && (q + 4) % 6 == 4);
    assert((q + 5) / 18 == i && ((q + 5) % 18) / 6 == k && (q + 5) % 6 == 5);
}

/// Stroke a line: a row of four vertices across it at every point, and three
/// strips between neighbouring rows. The inner two vertices of a row have the
/// colour, the outer two have it at no opacity. `row` gives the places of a
/// point's row, given its neighbours along the line. Fewer than two points stroke nothing.
pub fn stroke_polyline<P: Copy, Q: Copy, R: Fn(Option<P>, P, Option<P>) -> Row<Q>>(
    mesh: &mut Mesh<Dab<Q>>,
    points: &Vec<P>,
    color: Rgba,
    closed: bool,
    row: R,
)
    requires
        old(mesh).wf(),
        old(mesh).vertices.len() + 4 * points.len() <= u32::MAX,
        single_valued3(row),
        forall|a: Option<P>, p: P, b: Option<P>| row.requires((a, p, b)),
    ensures
        final(mesh).wf(),
        points.len() < 2 ==> *final(mesh) == *old(mesh),
        points.len() >= 2 ==> {
            &&& final(mesh).vertices@ == old(mesh).vertices@ + stroke_vertices(points@, closed, color, row)
            &&& final(mesh).indices@ == old(mesh).indices@ + stroke_indices(
                old(mesh).vertices.len() as int,
                points.len() as int,
                closed,
            )
            &&& stroke_made(points@, closed, row, points.len() as int)
        },
        points.len() >= 2 ==> forall|i: int|
            #![trigger final(mesh).vertices[old(mesh).vertices.len() + 4 * i]]
            0 <= i < points.len() ==> row.ensures(
                (
                    if i > 0 {
                        Some(points[i - 1])
                    } else if closed {
                        Some(points[points.len() - 1])
                    } else {
                        None
                    },
                    points[i],
                    if i + 1 < points.len() {
                        Some(points[i + 1])
                    } else if closed {
                        Some(points[0])
                    } else {
                        None
                    },
                ),
                (
                    final(mesh).vertices[old(mesh).vertices.len() + 4 * i].at,
                    final(mesh).vertices[old(mesh).vertices.len() + 4 * i + 1].at,
                    final(mesh).vertices[old(mesh).vertices.len() + 4 * i + 2].at,
                    final(mesh).vertices[old(mesh).vertices.len() + 4 * i + 3].at,
                ),
            ),
{
    let n: usize = points.len();
    if n < 2 {
        return;
    }
    let edge: Rgba = color.faded();
    let base: u32 = mesh.vertices.len() as u32;
    let ghost (vertices, indices) = (mesh.vertices@, mesh.indices@);
    let ghost across = stroke_vertices(points@, closed, color, row);
    let mut i: usize = 0;
    assert(mesh.vertices@ =~= vertices + across.take(0));
    while i < n
        invariant
            i <= n,
            n == points.len(),
            n >= 2,
            vertices.len() + 4 * n <= u32::MAX,
            single_valued3(row),
            forall|a: Option<P>, p: P, b: Option<P>| row.requires((a, p, b)),
            edge == color.clear(),
            across == stroke_vertices(points@, closed, color, row),
            mesh.wf(),
            mesh.vertices@ == vertices + across.take(4 * i),
            mesh.indices@ == indices,
            stroke_made(points@, closed, row, i as int),
        decreases n - i,
    {
        let incoming: Option<P> = if i > 0 {
            Some(points[i - 1])
        } else if closed {
            Some(points[n - 1])
        } else {
            None
        };
        let outgoing: Option<P> = if i + 1 < n {
            Some(points[i + 1])
        } else if closed {
            Some(points[0])
        } else {
            None
        };
        let four: Row<Q> = row(incoming, points[i], outgoing);
        proof {
            lemma_answer3(row, incoming, points[i as int], outgoing, four);
            assert forall|r: int| 0 <= r < 4 implies (#[trigger] across[4 * i + r]).at == row_part(
                four,
                r,
            ) && across[4 * i + r].color == (if r == 1 || r == 2 {
                color
            } else {
                color.clear()
            }) by {
                assert((4 * i + r) / 4 == i);
                assert((4 * i + r) % 4 == r);
            }
            assert(across[4 * i + 0].at == four.0);
            assert(across[4 * i + 1].at == four.1);
            assert(across[4 * i + 2].at == four.2);
            assert(across[4 * i + 3].at == four.3);
        }
        mesh.vertex(Dab { at: four.0, color: edge });
        mesh.vertex(Dab { at: four.1, color });
        mesh.vertex(Dab { at: four.2, color });
        mesh.vertex(Dab { at: four.3, color: edge });
        assert(mesh.vertices@ =~= vertices + across.take(4 * (i + 1)));
        i += 1;
    }
    assert(across.take(4 * i) =~= across);
    let segments: usize = if closed {
        n
    } else {
        n - 1
    };
    let ghost all = stroke_indices(base as int, n as int, closed);
    let mut s: usize = 0;
    assert(mesh.indices@ =~= indices + all.take(0));
    while s < segments
        invariant
            s <= segments <= n,
            segments == segment_count(n as int, closed),
            n >= 2,
            base == vertices.len(),
            base + 4 * n <= u32::MAX,
            mesh.wf(),
            mesh.vertices@ == vertices + across,
            across.len() == 4 * n,
            all == stroke_indices(base as int, n as int, closed),
            mesh.indices@ == indices + all.take(18 * s),
        decreases segments - s,
    {
        let next: usize = if s + 1 == n {
            0
        } else {
            s + 1
        };
        let a: u32 = base + 4 * s as u32;
        let b: u32 = base + 4 * next as u32;
        let mut k: u32 = 0;
        assert(mesh.indices@ =~= indices + all.take(18 * s + 6 * k));
        while k < 3
            invariant
                k <= 3,
                s < segments <= n,
                segments == segment_count(n as int, closed),
                next == (if s + 1 == n {
                    0
                } else {
                    s + 1
                }),
                a == base + 4 * s,
                b == base + 4 * next,
                base == vertices.len(),
                base + 4 * n <= u32::MAX,
                mesh.wf(),
                mesh.vertices@ == vertices + across,
                across.len() == 4 * n,
                all == stroke_indices(base as int, n as int, closed),
                mesh.indices@ == indices + all.take(18 * s + 6 * k),
            decreases 3 - k,
        {
            proof {
                lemma_stroke_strip(base as int, n as int, closed, s as int, k as int);
            }
            stroke_strip(mesh, a + k, b + k);
            proof {
                let at = 18 * s + 6 * k;
                let strip = strip_indices((a + k) as u32, (b + k) as u32);
                assert(indices + all.take(at) + strip =~= indices + (all.take(at) + strip));
            }
            k += 1;
        }
        s += 1;
    }
    assert(all.take(18 * s) =~= all);
    assert forall|j: int|
        #![trigger mesh.vertices[base + 4 * j]]
        0 <= j < n implies row.ensures(
        (
            if j > 0 {
                Some(points[j - 1])
            } else if closed {
                Some(points[n - 1])
            } else {
                None
            },
            points[j],
            if j + 1 < n {
                Some(points[j + 1])
            } else if closed {
                Some(points[0])
            } else {
                None
            },
        ),
        (
            mesh.vertices[base + 4 * j].at,
            mesh.vertices[base + 4 * j + 1].at,
            mesh.vertices[base + 4 * j + 2].at,
            mesh.vertices[base + 4 * j + 3].at,
        ),
    ) by {
        law_rows_lie_between_their_neighbours(points@, closed, color, row, j);
        let from = before(points@, closed, j);
        assert(answered3(row, from, points[j], behind(points@, closed, j)));
        assert(mesh.vertices[base + 4 * j] == across[4 * j]);
        assert(mesh.vertices[base + 4 * j + 1] == across[4 * j + 1]);
        assert(mesh.vertices[base + 4 * j + 2] == across[4 * j + 2]);
        assert(mesh.vertices[base + 4 * j + 3] == across[4 * j + 3]);
    }
}

/// The indices of one strip between two rows, of which `a` and `b` are the
/// vertices on its one side.
pub open spec fn strip_indices(a: u32, b: u32) -> Seq<u32> {
    seq![a, b, (b + 1) as u32, a, (b + 1) as u32, (a + 1) as u32]
}

/// Add the two triangles of one strip.
fn stroke_strip<V>(mesh: &mut Mesh<V>, a: u32, b: u32)
    requires
        old(mesh).wf(),
        a + 1 < old(mesh).vertices.len(),
        b + 1 < old(mesh).vertices.len(),
        a < u32::MAX,
        b < u32::MAX,
    ensures
        final(mesh).wf(),
        final(mesh).vertices == old(mesh).vertices,
        final(mesh).indices@ == old(mesh).indices@ + strip_indices(a, b),
{
    mesh.triangle(a, b, b + 1);
    mesh.triangle(a, b + 1, a + 1);
    assert(mesh.indices@ =~= old(mesh).indices@ + strip_indices(a, b));
}

proof fn lemma_stroke_strip(base: int, n: int, closed: bool, s: int, k: int)
    requires
        0 <= s < segment_count(n, closed) <= n,
        0 <= k < 3,
        0 <= base,
        base + 4 * n <= u32::MAX,
    ensures
        ({
            let all = stroke_indices(base, n, closed);
            let a = base + 4 * s + k;
            let b = base + 4 * (if s + 1 == n {
                0
            } else {
                s + 1
            }) + k;
            let at = 18 * s + 6 * k;
            all.take(at + 6) == all.take(at) + strip_indices(a as u32, b as u32)
        }),
{
    let all = stroke_indices(base, n, closed);
    let at = 18 * s + 6 * k;
    let a = base + 4 * s + k;
    let b = base + 4 * (if s + 1 == n {
        0
    } else {
        s + 1
    }) + k;
    let strip = strip_indices(a as u32, b as u32);
    assert forall|r: int| 0 <= r < 6 implies #[trigger] strip[r] == all[at + r] by {
        assert((at + r) / 18 == s);
        assert(((at + r) % 18) / 6 == k);
        assert((at + r) % 6 == r);
    }
    let (left, right) = (all.take(at + 6), all.take(at) + strip);
    assert forall|q: int| 0 <= q < at + 6 implies left[q] == right[q] by {
        if q >= at {
            assert(strip[q - at] == all[at + (q - at)]);
        }
    }
    assert(left =~= right);
}

/// The index `q` of a fan of `n` triangles around vertex `base` and along the
/// rim behind it, which closes on its first vertex.
pub open spec fn fan_index(base: int, n: int, q: int) -> int {
    let i = q / 3;
    if q % 3 == 0 {
        base
    } else if q % 3 == 1 {
        base + 1 + i
    } else if i + 1 == n {
        base + 1
    } else {
        base + 2 + i
    }
}

/// A fan's triangle `i` lies between its hub, vertex `i` of the rim and the next
/// one of the rim, which behind the last is the first.
pub proof fn law_fans_go_round(base: int, n: int, i: int)
    requires
        0 <= base,
        0 <= i < n,
    ensures
        fan_index(base, n, 3 * i) == base,
        fan_index(base, n, 3 * i + 1) == base + 1 + i,
        fan_index(base, n, 3 * i + 2) == base + 1 + (i + 1) % n,
{
    assert((3 * i) / 3 == i && (3 * i) % 3 == 0);
    assert((3 * i + 1) / 3 == i && (3 * i + 1) % 3 == 1);
    assert((3 * i + 2) / 3 == i && (3 * i + 2) % 3 == 2);
    if i + 1 == n {
        assert((i + 1) % n == 0) by (nonlinear_arith)
            requires
                i + 1 == n,
                n >= 1,
        ;
    } else {
        assert((i + 1) % n == i + 1) by (nonlinear_arith)
            requires
                0 <= i + 1 < n,
        ;
    }
}

/// The vertices of places in one colour.
pub open spec fn dabs<Q>(places: Seq<Q>, color: Rgba) -> Seq<Dab<Q>> {
    places.map(|_k: int, at: Q| Dab { at, color })
}

/// Fill an ellipse: a fan from its centre along its rim, in one colour.
pub fn fill_ellipse<Q: Copy>(mesh: &mut Mesh<Dab<Q>>, centre: Q, rim: &Vec<Q>, color: Rgba)
    requires
        old(mesh).wf(),
        rim.len() > 0,
        old(mesh).vertices.len() + rim.len() + 1 <= u32::MAX,
    ensures
        final(mesh).wf(),
        final(mesh).vertices@ == old(mesh).vertices@.push(Dab { at: centre, color }) + dabs(
            rim@,
            color,
        ),
        final(mesh).indices@ == old(mesh).indices@ + Seq::new(
            3 * rim.len() as nat,
            |q: int| fan_index(old(mesh).vertices.len() as int, rim.len() as int, q) as u32,
        ),
{
    let n: usize = rim.len();
    let ghost (vertices, indices) = (mesh.vertices@, mesh.indices@);
    let ghost hub_dab = Dab { at: centre, color };
    let hub: u32 = mesh.vertex(Dab { at: centre, color });
    let ghost fan = Seq::new(
        3 * n as nat,
        |q: int| fan_index(vertices.len() as int, n as int, q) as u32,
    );
    let first: u32 = mesh.vertex(Dab { at: rim[0], color });
    let mut previous: u32 = first;
    let mut k: usize = 1;
    proof {
        assert(mesh.vertices@ =~= vertices.push(hub_dab) + dabs(rim@, color).take(1));
        assert(mesh.indices@ =~= indices + fan.take(0));
    }
    while k < n
        invariant
            1 <= k <= n,
            n == rim.len(),
            hub == vertices.len(),
            first == hub + 1,
            previous == hub + k,
            vertices.len() + n + 1 <= u32::MAX,
            mesh.wf(),
            mesh.vertices@ == vertices.push(hub_dab) + dabs(rim@, color).take(k as int),
            fan == Seq::new(
                3 * n as nat,
                |q: int| fan_index(vertices.len() as int, n as int, q) as u32,
            ),
            mesh.indices@ == indices + fan.take(3 * (k - 1)),
        decreases n - k,
    {
        let next: u32 = mesh.vertex(Dab { at: rim[k], color });
        mesh.triangle(hub, previous, next);
        previous = next;
        proof {
            assert(mesh.vertices@ =~= vertices.push(hub_dab) + dabs(rim@, color).take(k + 1));
            assert(mesh.indices@ =~= indices + fan.take(3 * k));
        }
        k += 1;
    }
    mesh.triangle(hub, previous, first);
    assert(dabs(rim@, color).take(k as int) =~= dabs(rim@, color));
    assert(mesh.indices@ =~= indices + fan);
}

/// Fill an outline in one colour and stroke it in another, unclosed, on top. Outlines of fewer than
/// three points are degenerate and paint nothing.
pub fn paint<
    P: Copy,
    Q: Copy,
    A,
    S: Fn(P, P) -> bool,
    H: Fn(P) -> Q,
    T: Fn(A, P, P) -> A,
    G: Fn(A) -> bool,
    C: Fn(bool, P, P, P) -> bool,
    I: Fn(P, P, P, P) -> bool,
    R: Fn(Option<P>, P, Option<P>) -> Row<Q>,
>(
    mesh: &mut Mesh<Dab<Q>>,
    outline: &Vec<P>,
    fill: Rgba,
    line: Rgba,
    same: S,
    place: H,
    zero: A,
    term: T,
    positive: G,
    turns: C,
    inside: I,
    row: R,
)
    requires
        old(mesh).wf(),
        old(mesh).vertices.len() + 5 * outline.len() < u32::MAX,
        single_valued2(same),
        single_valued1(place),
        single_valued3(term),
        single_valued1(positive),
        single_valued4(turns),
        single_valued4(inside),
        single_valued3(row),
        forall|a: P, b: P| same.requires((a, b)),
        forall|p: P| place.requires((p,)),
        forall|s: A, a: P, b: P| term.requires((s, a, b)),
        forall|s: A| positive.requires((s,)),
        forall|w: bool, a: P, b: P, c: P| turns.requires((w, a, b, c)),
        forall|p: P, a: P, b: P, c: P| inside.requires((p, a, b, c)),
        forall|a: Option<P>, p: P, b: Option<P>| row.requires((a, p, b)),
    ensures
        final(mesh).wf(),
        outline.len() < 3 ==> *final(mesh) == *old(mesh),
        outline.len() >= 3 ==> {
            let n = open_len(outline@, same, outline.len() as int);
            let ring = outline@.take(n);
            let filled = if n < 3 {
                Seq::empty()
            } else {
                shaded(ring, fill, place)
            };
            let triangles = if n < 3 {
                Seq::empty()
            } else {
                triangulation(ring, is_ccw(ring, zero, term, positive), turns, inside)
            };
            let base = old(mesh).vertices.len() as int;
            &&& final(mesh).vertices@ == old(mesh).vertices@ + filled + stroke_vertices(
                outline@,
                false,
                line,
                row,
            )
            &&& open_made(outline@, same, outline.len() as int)
            &&& final(mesh).indices@ == old(mesh).indices@ + triangle_indices(triangles, base)
                + stroke_indices(base + filled.len(), outline.len() as int, false)
            &&& n >= 3 ==> {
                &&& shade_made(ring, place)
                &&& area_made(ring, zero, term, n)
                &&& positive.ensures(
                    (area_sum(ring, zero, term, n),),
                    is_ccw(ring, zero, term, positive),
                )
                &&& triangulation_told(
                    ring,
                    is_ccw(ring, zero, term, positive),
                    turns,
                    inside,
                )
            }
            &&& stroke_made(outline@, false, row, outline.len() as int)
        },
{
    if outline.len() < 3 {
        return;
    }
    let ghost (vertices, indices) = (mesh.vertices@, mesh.indices@);
    let ghost n = open_len(outline@, same, outline.len() as int);
    proof {
        lemma_open_len(outline@, same, outline.len() as int);
    }
    fill_polygon(mesh, outline, fill, same, place, zero, term, positive, turns, inside);
    proof {
        if n < 3 {
            assert(vertices =~= vertices + Seq::<Dab<Q>>::empty());
            assert(indices =~= indices + triangle_indices(
                Seq::<Triangle>::empty(),
                vertices.len() as int,
            ));
        }
    }
    stroke_polyline(mesh, outline, line, false, row);
}

proof fn lemma_open_len<P, S: Fn(P, P) -> bool>(points: Seq<P>, same: S, n: int)
    requires
        0 <= n,
    ensures
        0 <= open_len(points, same, n) <= n,
    decreases n,
{
    if n >= 2 && same.ensures((points[0], points[n - 1]), true) {
        lemma_open_len(points, same, n - 1);
    }
}

/// The generator that scatters a pinch of food flakes.
#[derive(Clone, Copy, Debug, PartialEq, Eq, Structural)]
pub struct FlakeRng {
    pub state: u32,
}

/// The next state of the scatter's generator.
pub open spec fn flake_step(state: u32) -> u32 {
    state.wrapping_mul(747_796_405).wrapping_add(2_891_336_453)
}

/// The number that a state gives.
pub open spec fn flake_word(state: u32) -> u32 {
    let word = ((state >> (((state >> 28u32) + 4) as u32)) ^ state).wrapping_mul(277_803_737);
    (word >> 22u32) ^ word
}

/// `y` with its halves swapped.
pub open spec fn halves_swapped(y: u32) -> u32 {
    (y << 16u32) | (y >> 16u32)
}

impl FlakeRng {
    /// The generator for a drop at the place with these coordinate bits, so
    /// that the scatter stays as long as the food does.
    pub fn new(x: u32, y: u32) -> (rng: FlakeRng)
        ensures
            rng.state == x.wrapping_mul(0x9E37_79B9) ^ halves_swapped(y),
    {
        FlakeRng { state: x.wrapping_mul(0x9E37_79B9) ^ ((y << 16u32) | (y >> 16u32)) }
    }

    /// The next number.
    pub fn next(&mut self) -> (word: u32)
        ensures
            final(self).state == flake_step(old(self).state),
            word == flake_word(final(self).state),
    {
        self.state = self.state.wrapping_mul(747_796_405).wrapping_add(2_891_336_453);
        let state: u32 = self.state;
        assert(state >> 28u32 <= 15) by (bit_vector);
        let turn: u32 = (state >> 28u32) + 4;
        let word: u32 = ((state >> turn) ^ state).wrapping_mul(277_803_737);
        (word >> 22u32) ^ word
    }
}

/// The fewest and the most flakes of a drop.
pub const MIN_FLAKES: usize = 4;

pub const MAX_FLAKES: usize = 10;

/// The colour tones of the flakes.
pub const FLAKE_TONES: usize = 3;

/// How many flakes a drop of the given raw size has.
pub fn flake_count(raw: usize) -> (n: usize)
    ensures
        n == crate::arith::clamped(raw as int, MIN_FLAKES as int, MAX_FLAKES as int),
{
    if raw < MIN_FLAKES {
        MIN_FLAKES
    } else if raw > MAX_FLAKES {
        MAX_FLAKES
    } else {
        raw
    }
}

/// The tone of a flake whose drawn share of the tones is `raw`.
pub fn flake_tone(raw: usize) -> (tone: usize)
    ensures
        tone == raw % FLAKE_TONES,
        tone < FLAKE_TONES,
{
    raw % FLAKE_TONES
}

/// A fill puts one vertex at each point, in order and all in its colour.
pub proof fn law_fills_have_a_vertex_per_point<P, Q, H: Fn(P) -> Q>(
    points: Seq<P>,
    color: Rgba,
    place: H,
    i: int,
)
    requires
        0 <= i < points.len(),
    ensures
        shaded(points, color, place).len() == points.len(),
        shaded(points, color, place)[i].at == answer1(place, points[i]),
        shaded(points, color, place)[i].color == color,
{
}

/// A rim puts one vertex at each place, in order and all in its colour.
pub proof fn law_rims_have_a_vertex_per_place<Q>(places: Seq<Q>, color: Rgba, i: int)
    requires
        0 <= i < places.len(),
    ensures
        dabs(places, color).len() == places.len(),
        dabs(places, color)[i].at == places[i],
        dabs(places, color)[i].color == color,
{
}

/// Every vertex of a stroke is a corner of some triangle.
pub proof fn law_strokes_leave_no_vertex_out(base: int, n: int, closed: bool, v: int)
    requires
        0 <= base,
        base + 4 * n <= u32::MAX,
        n >= 2,
        0 <= v < 4 * n,
    ensures
        stroke_indices(base, n, closed).contains((base + v) as u32),
{
    let all = stroke_indices(base, n, closed);
    let (i, d) = (v / 4, v % 4);
    if i < n - 1 {
        if d < 3 {
            law_stroke_strips_join_rows(base, n, closed, i, d);
            assert(all[18 * i + 6 * d] == base + v);
        } else {
            law_stroke_strips_join_rows(base, n, closed, i, 2);
            assert(all[18 * i + 6 * 2 + 5] == base + v);
        }
    } else {
        let j = n - 2;
        assert((j + 1) % n == n - 1) by (nonlinear_arith)
            requires
                j == n - 2,
                n >= 2,
        ;
        if d < 3 {
            law_stroke_strips_join_rows(base, n, closed, j, d);
            assert(all[18 * j + 6 * d + 1] == base + v);
        } else {
            law_stroke_strips_join_rows(base, n, closed, j, 2);
            assert(all[18 * j + 6 * 2 + 2] == base + v);
        }
    }
}

/// A drop has as many flakes as its size asks for, but four at least and ten at
/// most.
pub proof fn law_drops_have_four_to_ten_flakes(raw: int, n: int)
    requires
        n == crate::arith::clamped(raw, MIN_FLAKES as int, MAX_FLAKES as int),
    ensures
        4 <= n <= 10,
        4 <= raw <= 10 ==> n == raw,
        raw <= 4 ==> n == 4,
        raw >= 10 ==> n == 10,
{
}

} // verus!
