//! The still picture of the field: a gradient, and strokes on top of it.

use vstd::prelude::*;

use crate::fish::paint::Row;
use crate::flow::field::{cell, lemma_cell, FlowField};
use crate::mesh::{law_strips_join_rows, ribbon_indices, Mesh};
use crate::oracle::{
    answer2, answer3, answered2, answered3, lemma_answer2, lemma_answer3, single_valued2,
    single_valued3,
};

verus! {

/// A point of a stroke: which of how many it is, where it is, and the normal of
/// the stroke there.
#[derive(Clone, Copy)]
pub struct RibbonPoint<P, N> {
    pub index: usize,
    pub count: usize,
    pub at: P,
    pub normal: N,
}

/// The way of a stroke around point `i`: from the point before to the one
/// behind, or from and to the point itself at the ends.
pub open spec fn way_at<P>(points: Seq<P>, i: int) -> (P, P) {
    (
        if i == 0 {
            points[0]
        } else {
            points[i - 1]
        },
        if i + 1 < points.len() {
            points[i + 1]
        } else {
            points[i]
        },
    )
}

/// The normal of a stroke at point `i`: across the way between its neighbours,
/// or that of the point before where these coincide.
pub open spec fn normal_at<P, N, H: Fn(P, P) -> Option<N>>(
    points: Seq<P>,
    first: N,
    normal: H,
    i: int,
) -> N
    decreases i + 1,
{
    if i < 0 {
        first
    } else {
        let way = way_at(points, i);
        match answer2(normal, way.0, way.1) {
            Some(n) => n,
            None => normal_at(points, first, normal, i - 1),
        }
    }
}

/// Point `i` of a stroke, with its normal.
pub open spec fn ribbon_point<P, N, H: Fn(P, P) -> Option<N>>(
    points: Seq<P>,
    first: N,
    normal: H,
    i: int,
) -> RibbonPoint<P, N> {
    RibbonPoint {
        index: i as usize,
        count: points.len() as usize,
        at: points[i],
        normal: normal_at(points, first, normal, i),
    }
}

/// The four vertices of a row.
pub open spec fn row_seq<V>(row: Row<V>) -> Seq<V> {
    seq![row.0, row.1, row.2, row.3]
}

/// The vertices across the first `k` points of a stroke.
pub open spec fn ribbon_rows<
    T,
    P,
    N,
    V,
    H: Fn(P, P) -> Option<N>,
    R: Fn(T, RibbonPoint<P, N>) -> Row<V>,
>(ink: T, points: Seq<P>, first: N, normal: H, row: R, k: int) -> Seq<V>
    decreases k,
{
    if k <= 0 {
        Seq::empty()
    } else {
        ribbon_rows(ink, points, first, normal, row, k - 1) + row_seq(
            answer2(row, ink, ribbon_point(points, first, normal, k - 1)),
        )
    }
}

/// The normals and rows of the first `k` points are answers that the kernels
/// gave.
pub open spec fn rows_made<
    T,
    P,
    N,
    V,
    H: Fn(P, P) -> Option<N>,
    R: Fn(T, RibbonPoint<P, N>) -> Row<V>,
>(ink: T, points: Seq<P>, first: N, normal: H, row: R, k: int) -> bool {
    forall|i: int|
        0 <= i < k ==> answered2(normal, (#[trigger] way_at(points, i)).0, way_at(points, i).1)
            && answered2(row, ink, ribbon_point(points, first, normal, i))
}

/// The indices of the strips between the first `k` rows, which start at vertex
/// `base`.
pub open spec fn ribbon_strips(base: int, k: int) -> Seq<u32>
    decreases k,
{
    if k <= 1 {
        Seq::empty()
    } else {
        ribbon_strips(base, k - 1) + ribbon_indices(base + 4 * (k - 2))
    }
}

/// A stroke has four vertices for each point, and eighteen indices between two
/// points.
pub proof fn law_ribbon_sizes<
    T,
    P,
    N,
    V,
    H: Fn(P, P) -> Option<N>,
    R: Fn(T, RibbonPoint<P, N>) -> Row<V>,
>(ink: T, points: Seq<P>, first: N, normal: H, row: R, base: int, k: int)
    requires
        k >= 1,
    ensures
        ribbon_rows(ink, points, first, normal, row, k).len() == 4 * k,
        ribbon_strips(base, k).len() == 18 * (k - 1),
    decreases k,
{
    if k > 1 {
        law_ribbon_sizes(ink, points, first, normal, row, base, k - 1);
    } else {
        assert(ribbon_rows(ink, points, first, normal, row, 0).len() == 0);
    }
}

/// The strips of a stroke join each row to the next: those between points `i`
/// and `i + 1` lie between the rows of these two points and name no other.
pub proof fn law_strips_join_neighbours(base: int, k: int, i: int)
    requires
        0 <= base,
        base + 4 * k <= u32::MAX,
        0 <= i < k - 1,
    ensures
        ribbon_strips(base, k).len() == 18 * (k - 1),
        forall|s: int|
            #![trigger ribbon_strips(base, k)[18 * i + 6 * s]]
            0 <= s < 3 ==> {
                let (near, far) = (base + 4 * i + s, base + 4 * (i + 1) + s);
                let q = 18 * i + 6 * s;
                let strips = ribbon_strips(base, k);
                &&& strips[q] == near && strips[q + 1] == near + 1 && strips[q + 2] == far
                &&& strips[q + 3] == near + 1 && strips[q + 4] == far + 1 && strips[q + 5] == far
            },
        forall|q: int|
            18 * i <= q < 18 * i + 18 ==> base + 4 * i <= #[trigger] ribbon_strips(base, k)[q]
                < base + 4 * i + 8,
    decreases k,
{
    lemma_strips_len(base, k - 1);
    let own = ribbon_indices(base + 4 * (k - 2));
    let strips = ribbon_strips(base, k);
    if i < k - 2 {
        law_strips_join_neighbours(base, k - 1, i);
        let fewer = ribbon_strips(base, k - 1);
        assert forall|q: int| 0 <= q < fewer.len() implies strips[q] == fewer[q] by {}
        assert forall|s: int| 0 <= s < 3 implies ({
            let (near, far) = (base + 4 * i + s, base + 4 * (i + 1) + s);
            let q = 18 * i + 6 * s;
            &&& #[trigger] strips[18 * i + 6 * s] == near && strips[q + 1] == near + 1
            &&& strips[q + 2] == far && strips[q + 3] == near + 1
            &&& strips[q + 4] == far + 1 && strips[q + 5] == far
        }) by {
            assert(fewer[18 * i + 6 * s] == base + 4 * i + s);
        }
        assert forall|q: int| 18 * i <= q < 18 * i + 18 implies base + 4 * i <= #[trigger] strips[q]
            < base + 4 * i + 8 by {
            assert(fewer[q] == strips[q]);
        }
    } else {
        assert forall|s: int| 0 <= s < 3 implies ({
            let (near, far) = (base + 4 * i + s, base + 4 * (i + 1) + s);
            let q = 18 * i + 6 * s;
            &&& #[trigger] strips[18 * i + 6 * s] == near && strips[q + 1] == near + 1
            &&& strips[q + 2] == far && strips[q + 3] == near + 1
            &&& strips[q + 4] == far + 1 && strips[q + 5] == far
        }) by {
            law_strips_join_rows(base + 4 * i, s);
            let strip = own.subrange(6 * s, 6 * s + 6);
            assert forall|r: int| 0 <= r < 6 implies strips[18 * i + 6 * s + r] == #[trigger] strip[r] by {
                assert(strip[r] == own[6 * s + r]);
            }
            assert(strip[0] == strips[18 * i + 6 * s]);
            assert(strip[1] == strips[18 * i + 6 * s + 1]);
            assert(strip[2] == strips[18 * i + 6 * s + 2]);
            assert(strip[3] == strips[18 * i + 6 * s + 3]);
            assert(strip[4] == strips[18 * i + 6 * s + 4]);
            assert(strip[5] == strips[18 * i + 6 * s + 5]);
        }
        assert forall|q: int| 18 * i <= q < 18 * i + 18 implies base + 4 * i <= #[trigger] strips[q]
            < base + 4 * i + 8 by {
            assert(strips[q] == own[q - 18 * i]);
        }
    }
}

proof fn lemma_strips_len(base: int, k: int)
    requires
        k >= 1,
    ensures
        ribbon_strips(base, k).len() == 18 * (k - 1),
    decreases k,
{
    if k > 1 {
        lemma_strips_len(base, k - 1);
    }
}

/// Every vertex of a stroke is a corner of some triangle.
pub proof fn law_strips_leave_no_vertex_out(base: int, k: int, v: int)
    requires
        0 <= base,
        base + 4 * k <= u32::MAX,
        k >= 2,
        0 <= v < 4 * k,
    ensures
        ribbon_strips(base, k).contains((base + v) as u32),
{
    let i = if v / 4 < k - 1 {
        v / 4
    } else {
        k - 2
    };
    law_strips_join_neighbours(base, k, i);
    let strips = ribbon_strips(base, k);
    let at = 18 * i;
    assert(strips[at + 6 * 0] == base + 4 * i);
    assert(strips[at + 6 * 1] == base + 4 * i + 1);
    assert(strips[at + 6 * 2] == base + 4 * i + 2);
    let d = v - 4 * i;
    if d == 0 {
        assert(strips[at] == base + v);
    } else if d == 1 {
        assert(strips[at + 6] == base + v);
    } else if d == 2 {
        assert(strips[at + 12] == base + v);
    } else if d == 3 {
        assert(strips[at + 13] == base + v);
    } else if d == 4 {
        assert(strips[at + 2] == base + v);
    } else if d == 5 {
        assert(strips[at + 8] == base + v);
    } else if d == 6 {
        assert(strips[at + 14] == base + v);
    } else {
        assert(strips[at + 16] == base + v);
    }
}

/// A stroke lies across its way: at its first point that to the second, at its
/// last that from the one before, at any other that from the point before to the
/// point behind. Where that way has no normal, the one before goes on.
pub proof fn law_strokes_lie_across_their_way<P, N, H: Fn(P, P) -> Option<N>>(
    points: Seq<P>,
    first: N,
    normal: H,
    i: int,
)
    requires
        points.len() >= 2,
        0 <= i < points.len(),
    ensures
        ({
            let n = points.len() as int;
            let before = if i == 0 {
                first
            } else {
                normal_at(points, first, normal, i - 1)
            };
            let across = if i == 0 {
                answer2(normal, points[0], points[1])
            } else if i == n - 1 {
                answer2(normal, points[n - 2], points[n - 1])
            } else {
                answer2(normal, points[i - 1], points[i + 1])
            };
            &&& across is Some ==> Some(normal_at(points, first, normal, i)) == across
            &&& across is None ==> normal_at(points, first, normal, i) == before
        }),
{
    reveal_with_fuel(normal_at, 2);
}

/// The row across point `i` of a stroke stands at vertices `4 * i` and the three
/// behind, and is made of that point, its number and its normal.
pub proof fn law_rows_stand_at_their_points<
    T,
    P,
    N,
    V,
    H: Fn(P, P) -> Option<N>,
    R: Fn(T, RibbonPoint<P, N>) -> Row<V>,
>(ink: T, points: Seq<P>, first: N, normal: H, row: R, k: int, i: int)
    requires
        0 <= i < k <= points.len(),
        points.len() <= usize::MAX,
    ensures
        ({
            let rows = ribbon_rows(ink, points, first, normal, row, k);
            let point = RibbonPoint {
                index: i as usize,
                count: points.len() as usize,
                at: points[i],
                normal: normal_at(points, first, normal, i),
            };
            &&& rows.len() == 4 * k
            &&& (rows[4 * i], rows[4 * i + 1], rows[4 * i + 2], rows[4 * i + 3]) == answer2(
                row,
                ink,
                point,
            )
        }),
    decreases k,
{
    lemma_rows_len(ink, points, first, normal, row, k - 1);
    if i < k - 1 {
        law_rows_stand_at_their_points(ink, points, first, normal, row, k - 1, i);
    }
}

proof fn lemma_rows_len<
    T,
    P,
    N,
    V,
    H: Fn(P, P) -> Option<N>,
    R: Fn(T, RibbonPoint<P, N>) -> Row<V>,
>(ink: T, points: Seq<P>, first: N, normal: H, row: R, k: int)
    requires
        k >= 0,
    ensures
        ribbon_rows(ink, points, first, normal, row, k).len() == 4 * k,
    decreases k,
{
    if k > 0 {
        lemma_rows_len(ink, points, first, normal, row, k - 1);
    }
}

/// Add a stroke to a mesh: a row of four vertices across it at every point, and
/// three strips between neighbouring rows. `normal` gives the normal of a way,
/// unless the way is too short to have one. Fewer than two points stroke
/// nothing.
pub fn ribbon_feathered<
    T: Copy,
    P: Copy,
    N: Copy,
    V,
    H: Fn(P, P) -> Option<N>,
    R: Fn(T, RibbonPoint<P, N>) -> Row<V>,
>(mesh: &mut Mesh<V>, ink: T, points: &Vec<P>, first: N, normal: &H, row: &R)
    requires
        old(mesh).wf(),
        old(mesh).vertices.len() + 4 * points.len() <= u32::MAX,
        single_valued2(*normal),
        single_valued2(*row),
        forall|a: P, b: P| normal.requires((a, b)),
        forall|t: T, p: RibbonPoint<P, N>| row.requires((t, p)),
    ensures
        final(mesh).wf(),
        points.len() < 2 ==> *final(mesh) == *old(mesh),
        points.len() >= 2 ==> {
            &&& final(mesh).vertices@ == old(mesh).vertices@ + ribbon_rows(
                ink,
                points@,
                first,
                *normal,
                *row,
                points.len() as int,
            )
            &&& final(mesh).indices@ == old(mesh).indices@ + ribbon_strips(
                old(mesh).vertices.len() as int,
                points.len() as int,
            )
            &&& rows_made(ink, points@, first, *normal, *row, points.len() as int)
        },
        points.len() >= 2 ==> forall|i: int|
            0 <= i < points.len() ==> row.ensures(
                (
                    ink,
                    RibbonPoint {
                        index: i as usize,
                        count: points.len(),
                        at: #[trigger] points[i],
                        normal: normal_at(points@, first, *normal, i),
                    },
                ),
                (
                    final(mesh).vertices[old(mesh).vertices.len() + 4 * i],
                    final(mesh).vertices[old(mesh).vertices.len() + 4 * i + 1],
                    final(mesh).vertices[old(mesh).vertices.len() + 4 * i + 2],
                    final(mesh).vertices[old(mesh).vertices.len() + 4 * i + 3],
                ),
            ),
        points.len() >= 2 ==> final(mesh).indices.len() == old(mesh).indices.len() + 18 * (
        points.len() - 1),
        points.len() >= 2 ==> forall|i: int, d: int|
            0 <= i < points.len() - 1 && 0 <= d < 18 ==> old(mesh).vertices.len() + 4 * i
                <= #[trigger] final(mesh).indices[old(mesh).indices.len() + 18 * i + d] < old(
                mesh,
            ).vertices.len() + 4 * i + 8,
{
    let n: usize = points.len();
    if n < 2 {
        return;
    }
    let base: u32 = mesh.vertices.len() as u32;
    let ghost (vertices, indices) = (mesh.vertices@, mesh.indices@);
    let mut last: N = first;
    let mut i: usize = 0;
    assert(mesh.vertices@ =~= vertices + ribbon_rows(ink, points@, first, *normal, *row, 0));
    assert(mesh.indices@ =~= indices + ribbon_strips(base as int, 0));
    while i < n
        invariant
            i <= n,
            n == points.len(),
            n >= 2,
            base == vertices.len(),
            base + 4 * n <= u32::MAX,
            single_valued2(*normal),
            single_valued2(*row),
            forall|a: P, b: P| normal.requires((a, b)),
            forall|t: T, p: RibbonPoint<P, N>| row.requires((t, p)),
            mesh.wf(),
            last == normal_at(points@, first, *normal, i - 1),
            mesh.vertices.len() == base + 4 * i,
            mesh.vertices@ == vertices + ribbon_rows(
                ink,
                points@,
                first,
                *normal,
                *row,
                i as int,
            ),
            mesh.indices@ == indices + ribbon_strips(base as int, i as int),
            rows_made(ink, points@, first, *normal, *row, i as int),
        decreases n - i,
    {
        let from: P = if i == 0 {
            points[0]
        } else {
            points[i - 1]
        };
        let to: P = if i + 1 < n {
            points[i + 1]
        } else {
            points[i]
        };
        let across: Option<N> = normal(from, to);
        proof {
            lemma_answer2(*normal, from, to, across);
        }
        if let Some(own) = across {
            last = own;
        }
        let point: RibbonPoint<P, N> = RibbonPoint {
            index: i,
            count: n,
            at: points[i],
            normal: last,
        };
        let four: Row<V> = row(ink, point);
        let ghost made = four;
        proof {
            lemma_answer2(*row, ink, point, four);
            assert((from, to) == way_at(points@, i as int));
            assert(point == ribbon_point(points@, first, *normal, i as int));
        }
        let ghost before = mesh.vertices@;
        mesh.vertex(four.0);
        mesh.vertex(four.1);
        mesh.vertex(four.2);
        mesh.vertex(four.3);
        proof {
            assert(mesh.vertices@ =~= before + row_seq(made));
            assert(before + row_seq(made) =~= vertices + ribbon_rows(
                ink,
                points@,
                first,
                *normal,
                *row,
                i + 1,
            ));
        }
        if i > 0 {
            let ghost strips = mesh.indices@;
            mesh.ribbon(base + 4 * (i as u32 - 1));
            assert(strips + ribbon_indices(base + 4 * (i - 1)) =~= indices + ribbon_strips(
                base as int,
                i + 1,
            ));
        } else {
            assert(ribbon_strips(base as int, 1) =~= ribbon_strips(base as int, 0));
        }
        i += 1;
    }
    proof {
        lemma_strips_len(base as int, n as int);
        assert forall|j: int| 0 <= j < n implies row.ensures(
            (
                ink,
                RibbonPoint {
                    index: j as usize,
                    count: n,
                    at: #[trigger] points[j],
                    normal: normal_at(points@, first, *normal, j),
                },
            ),
            (
                mesh.vertices[base + 4 * j],
                mesh.vertices[base + 4 * j + 1],
                mesh.vertices[base + 4 * j + 2],
                mesh.vertices[base + 4 * j + 3],
            ),
        ) by {
            law_rows_stand_at_their_points(ink, points@, first, *normal, *row, n as int, j);
            let way = way_at(points@, j);
            let rows = ribbon_rows(ink, points@, first, *normal, *row, n as int);
            assert(mesh.vertices[base + 4 * j] == rows[4 * j]);
            assert(mesh.vertices[base + 4 * j + 1] == rows[4 * j + 1]);
            assert(mesh.vertices[base + 4 * j + 2] == rows[4 * j + 2]);
            assert(mesh.vertices[base + 4 * j + 3] == rows[4 * j + 3]);
        }
        assert forall|j: int, d: int| 0 <= j < n - 1 && 0 <= d < 18 implies base + 4 * j
            <= #[trigger] mesh.indices[indices.len() + 18 * j + d] < base + 4 * j + 8 by {
            law_strips_join_neighbours(base as int, n as int, j);
            let strips = ribbon_strips(base as int, n as int);
            assert(mesh.indices[indices.len() + 18 * j + d] == strips[18 * j + d]);
        }
    }
}

/// The corner of a grid that index `q` names: two triangles for each cell, the
/// rows of corners one behind another from `base` on.
pub open spec fn gradient_index(base: int, cols: int, q: int) -> int {
    let at = q / 6;
    let a = base + cell(at / cols, at % cols, cols + 1);
    let r = q % 6;
    if r == 0 {
        a
    } else if r == 1 || r == 3 {
        a + 1
    } else if r == 2 || r == 5 {
        a + cols + 1
    } else {
        a + cols + 2
    }
}

/// The vertices of a gradient over a grid of cells: one for each corner.
pub open spec fn gradient_vertices<V, C: Fn(u32, usize, usize) -> V>(
    brightness: u32,
    cols: int,
    rows: int,
    corner: C,
) -> Seq<V> {
    Seq::new(
        ((rows + 1) * (cols + 1)) as nat,
        |k: int|
            answer3(
                corner,
                brightness,
                (k / (cols + 1)) as usize,
                (k % (cols + 1)) as usize,
            ),
    )
}

/// The corners of a gradient are answers that `corner` gave.
pub open spec fn corners_made<V, C: Fn(u32, usize, usize) -> V>(
    brightness: u32,
    cols: int,
    rows: int,
    corner: C,
) -> bool {
    forall|k: int|
        0 <= k < (rows + 1) * (cols + 1) ==> corner.ensures(
            (brightness, (k / (cols + 1)) as usize, (k % (cols + 1)) as usize),
            #[trigger] gradient_vertices(brightness, cols, rows, corner)[k],
        )
}

/// The indices of a gradient.
pub open spec fn gradient_indices(base: int, cols: int, rows: int) -> Seq<u32> {
    Seq::new((6 * (rows * cols)) as nat, |q: int| gradient_index(base, cols, q) as u32)
}

proof fn lemma_gradient_cell(base: int, cols: int, rows: int, at: int)
    requires
        cols >= 1,
        0 <= at < rows * cols,
        0 <= base,
    ensures
        0 <= at / cols < rows,
        0 <= at % cols < cols,
        base <= gradient_index(base, cols, 6 * at),
        gradient_index(base, cols, 6 * at) + cols + 2 < base + (rows + 1) * (cols + 1),
        forall|r: int|
            0 <= r < 6 ==> #[trigger] gradient_index(base, cols, 6 * at + r) == gradient_index(
                base,
                cols,
                6 * at,
            ) + (if r == 0 {
                0
            } else if r == 1 || r == 3 {
                1
            } else if r == 2 || r == 5 {
                cols + 1
            } else {
                cols + 2
            }),
{
    assert(0 <= at / cols < rows && 0 <= at % cols < cols) by (nonlinear_arith)
        requires
            cols >= 1,
            0 <= at < rows * cols,
    ;
    let (i, j) = (at / cols, at % cols);
    lemma_cell(i, j, cols + 1, rows + 1);
    lemma_cell(i + 1, j + 1, cols + 1, rows + 1);
    assert(cell(i + 1, j + 1, cols + 1) == cell(i, j, cols + 1) + cols + 2) by (nonlinear_arith);
    assert((cols + 1) * (rows + 1) == (rows + 1) * (cols + 1)) by (nonlinear_arith);
    assert forall|r: int| 0 <= r < 6 implies #[trigger] gradient_index(base, cols, 6 * at + r)
        == gradient_index(base, cols, 6 * at) + (if r == 0 {
        0
    } else if r == 1 || r == 3 {
        1
    } else if r == 2 || r == 5 {
        cols + 1
    } else {
        cols + 2
    }) by {
        assert((6 * at + r) / 6 == at);
        assert((6 * at + r) % 6 == r);
        assert((6 * at) / 6 == at);
        assert((6 * at) % 6 == 0);
    }
}

/// A gradient covers every cell of its grid with two triangles between the
/// cell's own four corners.
pub proof fn law_gradient_covers_cells(base: int, cols: int, rows: int, r: int, c: int)
    requires
        cols >= 1,
        0 <= base,
        base + (rows + 1) * (cols + 1) <= u32::MAX,
        0 <= r < rows,
        0 <= c < cols,
    ensures
        ({
            let indices = gradient_indices(base, cols, rows);
            let q = 6 * (r * cols + c);
            let (near, far) = (base + r * (cols + 1) + c, base + (r + 1) * (cols + 1) + c);
            &&& 0 <= q && q + 6 <= indices.len()
            &&& indices.len() == 6 * (rows * cols)
            &&& indices[q] == near && indices[q + 1] == near + 1 && indices[q + 2] == far
            &&& indices[q + 3] == near + 1 && indices[q + 4] == far + 1 && indices[q + 5] == far
        }),
{
    let at = r * cols + c;
    assert(0 <= at < rows * cols && at / cols == r && at % cols == c) by (nonlinear_arith)
        requires
            at == r * cols + c,
            cols >= 1,
            0 <= r < rows,
            0 <= c < cols,
    ;
    lemma_gradient_cell(base, cols, rows, at);
    assert(gradient_index(base, cols, 6 * at) == base + cell(r, c, cols + 1)) by {
        assert((6 * at) / 6 == at);
        assert((6 * at) % 6 == 0);
    }
    assert((r + 1) * (cols + 1) == r * (cols + 1) + cols + 1) by (nonlinear_arith);
    assert(cell(r, c, cols + 1) == r * (cols + 1) + c) by (nonlinear_arith);
    let q = 6 * at;
    assert(gradient_index(base, cols, 6 * at + 1) == gradient_index(base, cols, 6 * at) + 1);
    assert(gradient_index(base, cols, 6 * at + 2) == gradient_index(base, cols, 6 * at) + cols + 1);
    assert(gradient_index(base, cols, 6 * at + 3) == gradient_index(base, cols, 6 * at) + 1);
    assert(gradient_index(base, cols, 6 * at + 4) == gradient_index(base, cols, 6 * at) + cols + 2);
    assert(gradient_index(base, cols, 6 * at + 5) == gradient_index(base, cols, 6 * at) + cols + 1);
}

/// The corners of a gradient stand row by row, each made for its row and column.
pub proof fn law_gradient_corners_stand_in_rows<V, C: Fn(u32, usize, usize) -> V>(
    brightness: u32,
    cols: int,
    rows: int,
    corner: C,
    r: int,
    c: int,
)
    requires
        0 <= r <= rows <= usize::MAX,
        0 <= c <= cols <= usize::MAX,
    ensures
        ({
            let vertices = gradient_vertices(brightness, cols, rows, corner);
            &&& vertices.len() == (rows + 1) * (cols + 1)
            &&& 0 <= r * (cols + 1) + c < vertices.len()
            &&& vertices[r * (cols + 1) + c] == answer3(
                corner,
                brightness,
                r as usize,
                c as usize,
            )
        }),
{
    let k = r * (cols + 1) + c;
    assert(0 <= k < (rows + 1) * (cols + 1) && k / (cols + 1) == r && k % (cols + 1) == c)
        by (nonlinear_arith)
        requires
            k == r * (cols + 1) + c,
            0 <= r <= rows,
            0 <= c <= cols,
    ;
}

/// Add a gradient to a mesh. `corner` makes the vertex of a corner in a row and
/// column, at a brightness in hundredths.
pub fn emit_gradient<V, C: Fn(u32, usize, usize) -> V>(
    mesh: &mut Mesh<V>,
    brightness: u32,
    cols: usize,
    rows: usize,
    corner: &C,
)
    requires
        old(mesh).wf(),
        cols >= 1,
        old(mesh).vertices.len() + (rows + 1) * (cols + 1) <= u32::MAX,
        single_valued3(*corner),
        forall|b: u32, r: usize, c: usize| corner.requires((b, r, c)),
    ensures
        final(mesh).wf(),
        final(mesh).vertices@ == old(mesh).vertices@ + gradient_vertices(
            brightness,
            cols as int,
            rows as int,
            *corner,
        ),
        final(mesh).indices@ == old(mesh).indices@ + gradient_indices(
            old(mesh).vertices.len() as int,
            cols as int,
            rows as int,
        ),
        corners_made(brightness, cols as int, rows as int, *corner),
{
    let base: u32 = mesh.vertices.len() as u32;
    let ghost (vertices, indices) = (mesh.vertices@, mesh.indices@);
    proof {
        assert(cols + 1 <= (rows + 1) * (cols + 1) && rows + 1 <= (rows + 1) * (cols + 1)) by (
        nonlinear_arith)
            requires
                rows >= 0,
                cols >= 0,
        ;
        assert(rows * cols <= (rows + 1) * (cols + 1)) by (nonlinear_arith)
            requires
                rows >= 0,
                cols >= 0,
        ;
    }
    let stride: usize = cols + 1;
    let total: usize = (rows + 1) * stride;
    let ghost all = gradient_vertices(brightness, cols as int, rows as int, *corner);
    let mut k: usize = 0;
    assert(mesh.vertices@ =~= vertices + all.take(0));
    while k < total
        invariant
            k <= total,
            total == (rows + 1) * (cols + 1),
            stride == cols + 1,
            base == vertices.len(),
            base + total <= u32::MAX,
            single_valued3(*corner),
            forall|b: u32, r: usize, c: usize| corner.requires((b, r, c)),
            all == gradient_vertices(brightness, cols as int, rows as int, *corner),
            mesh.wf(),
            mesh.vertices@ == vertices + all.take(k as int),
            mesh.indices@ == indices,
            forall|j: int|
                0 <= j < k ==> corner.ensures(
                    (brightness, (j / (cols + 1)) as usize, (j % (cols + 1)) as usize),
                    #[trigger] all[j],
                ),
        decreases total - k,
    {
        let row: usize = k / stride;
        let col: usize = k % stride;
        let v: V = corner(brightness, row, col);
        proof {
            lemma_answer3(*corner, brightness, row, col, v);
        }
        mesh.vertex(v);
        k += 1;
        assert(mesh.vertices@ =~= vertices + all.take(k as int));
    }
    assert(all.take(k as int) =~= all);
    let cells: usize = rows * cols;
    let ghost strips = gradient_indices(base as int, cols as int, rows as int);
    let mut at: usize = 0;
    assert(mesh.indices@ =~= indices + strips.take(0));
    while at < cells
        invariant
            at <= cells,
            cells == rows * cols,
            cols >= 1,
            stride == cols + 1,
            base == vertices.len(),
            base + (rows + 1) * (cols + 1) <= u32::MAX,
            all.len() == (rows + 1) * (cols + 1),
            strips == gradient_indices(base as int, cols as int, rows as int),
            mesh.wf(),
            mesh.vertices@ == vertices + all,
            mesh.indices@ == indices + strips.take(6 * at),
        decreases cells - at,
    {
        proof {
            lemma_gradient_cell(base as int, cols as int, rows as int, at as int);
            let (i, j) = (at as int / cols as int, at as int % cols as int);
            lemma_cell(i, j, cols + 1, rows + 1);
            assert(gradient_index(base as int, cols as int, 6 * at) == base + cell(
                i,
                j,
                cols + 1,
            )) by {
                assert((6 * at) / 6 == at);
                assert((6 * at) % 6 == 0);
            }
            assert((cols + 1) * (rows + 1) == (rows + 1) * (cols + 1)) by (nonlinear_arith);
        }
        let corner_at: usize = (at / cols) * stride + at % cols;
        let a: u32 = base + corner_at as u32;
        let c: u32 = a + stride as u32;
        let ghost before = mesh.indices@;
        mesh.triangle(a, a + 1, c);
        mesh.triangle(a + 1, c + 1, c);
        proof {
            let added = seq![a, (a + 1) as u32, c, (a + 1) as u32, (c + 1) as u32, c];
            assert(mesh.indices@ =~= before + added);
            assert forall|r: int| 0 <= r < 6 implies #[trigger] added[r] == strips[6 * at + r] by {
                assert(gradient_index(base as int, cols as int, 6 * at + r) == a + (if r == 0 {
                    0
                } else if r == 1 || r == 3 {
                    1
                } else if r == 2 || r == 5 {
                    cols + 1
                } else {
                    cols + 2
                }));
            }
            let (left, right) = (mesh.indices@, indices + strips.take(6 * (at + 1)));
            assert forall|q: int| 0 <= q < left.len() implies left[q] == right[q] by {
                let d = q - indices.len() - 6 * at;
                if d >= 0 {
                    assert(added[d] == strips[6 * at + d]);
                }
            }
            assert(left =~= right);
        }
        at += 1;
    }
    assert(strips.take(6 * at) =~= strips);
}

/// A stroke to draw: its points, and what its colour is taken from.
pub struct Stroke<P, T> {
    pub points: Vec<P>,
    pub ink: T,
}

/// What a stroke's colour is taken from: the direction of its cell, or the field
/// along the stroke.
#[derive(Clone, Copy)]
pub enum Ink<D> {
    Cell(D),
    Field,
}

/// What the strokes before `k` add to a mesh of `base` vertices.
pub open spec fn strokes_drawn<
    T,
    P,
    N,
    V,
    H: Fn(P, P) -> Option<N>,
    R: Fn(T, RibbonPoint<P, N>) -> Row<V>,
>(strokes: Seq<Stroke<P, T>>, first: N, normal: H, row: R, base: int, k: int) -> (Seq<V>, Seq<u32>)
    decreases k,
{
    if k <= 0 {
        (Seq::empty(), Seq::empty())
    } else {
        let (vertices, indices) = strokes_drawn(strokes, first, normal, row, base, k - 1);
        let stroke = strokes[k - 1];
        let n = stroke.points.len() as int;
        if n < 2 {
            (vertices, indices)
        } else {
            (
                vertices + ribbon_rows(stroke.ink, stroke.points@, first, normal, row, n),
                indices + ribbon_strips(base + vertices.len(), n),
            )
        }
    }
}

/// The points of strokes.
pub open spec fn point_count<P, T>(strokes: Seq<Stroke<P, T>>, k: int) -> int
    decreases k,
{
    if k <= 0 {
        0
    } else {
        point_count(strokes, k - 1) + strokes[k - 1].points.len()
    }
}

/// More strokes have no fewer points.
pub proof fn lemma_point_count_rises<P, T>(strokes: Seq<Stroke<P, T>>, j: int, k: int)
    requires
        0 <= j <= k,
    ensures
        0 <= point_count(strokes, j) <= point_count(strokes, k),
    decreases k,
{
    if j < k {
        lemma_point_count_rises(strokes, j, k - 1);
    } else if j > 0 {
        lemma_point_count_rises(strokes, j - 1, j - 1);
    }
}

/// The rows of the first `k` strokes are answers that the kernels gave.
pub open spec fn strokes_made<
    T,
    P,
    N,
    V,
    H: Fn(P, P) -> Option<N>,
    R: Fn(T, RibbonPoint<P, N>) -> Row<V>,
>(strokes: Seq<Stroke<P, T>>, first: N, normal: H, row: R, k: int) -> bool {
    forall|s: int|
        0 <= s < k && (#[trigger] strokes[s]).points.len() >= 2 ==> rows_made(
            strokes[s].ink,
            strokes[s].points@,
            first,
            normal,
            row,
            strokes[s].points.len() as int,
        )
}

/// Draw strokes one behind another. Those with fewer than two points are left
/// out.
pub fn emit_strokes<
    T: Copy,
    P: Copy,
    N: Copy,
    V,
    H: Fn(P, P) -> Option<N>,
    R: Fn(T, RibbonPoint<P, N>) -> Row<V>,
>(mesh: &mut Mesh<V>, strokes: &Vec<Stroke<P, T>>, first: N, normal: &H, row: &R)
    requires
        old(mesh).wf(),
        old(mesh).vertices.len() + 4 * point_count(strokes@, strokes.len() as int) <= u32::MAX,
        single_valued2(*normal),
        single_valued2(*row),
        forall|a: P, b: P| normal.requires((a, b)),
        forall|t: T, p: RibbonPoint<P, N>| row.requires((t, p)),
    ensures
        final(mesh).wf(),
        ({
            let drawn = strokes_drawn(
                strokes@,
                first,
                *normal,
                *row,
                old(mesh).vertices.len() as int,
                strokes.len() as int,
            );
            &&& final(mesh).vertices@ == old(mesh).vertices@ + drawn.0
            &&& final(mesh).indices@ == old(mesh).indices@ + drawn.1
        }),
        strokes_made(strokes@, first, *normal, *row, strokes.len() as int),
{
    let ghost (vertices, indices) = (mesh.vertices@, mesh.indices@);
    let ghost base = vertices.len() as int;
    let mut k: usize = 0;
    assert(mesh.vertices@ =~= vertices + Seq::<V>::empty());
    assert(mesh.indices@ =~= indices + Seq::<u32>::empty());
    while k < strokes.len()
        invariant
            k <= strokes.len(),
            base == vertices.len(),
            base + 4 * point_count(strokes@, strokes.len() as int) <= u32::MAX,
            single_valued2(*normal),
            single_valued2(*row),
            forall|a: P, b: P| normal.requires((a, b)),
            forall|t: T, p: RibbonPoint<P, N>| row.requires((t, p)),
            mesh.wf(),
            mesh.vertices.len() <= base + 4 * point_count(strokes@, k as int),
            mesh.vertices@ == vertices + strokes_drawn(
                strokes@,
                first,
                *normal,
                *row,
                base,
                k as int,
            ).0,
            mesh.indices@ == indices + strokes_drawn(
                strokes@,
                first,
                *normal,
                *row,
                base,
                k as int,
            ).1,
            strokes_made(strokes@, first, *normal, *row, k as int),
        decreases strokes.len() - k,
    {
        proof {
            lemma_point_count_rises(strokes@, k + 1, strokes.len() as int);
        }
        let ghost (before, strips) = (mesh.vertices@, mesh.indices@);
        let stroke: &Stroke<P, T> = &strokes[k];
        ribbon_feathered(mesh, stroke.ink, &stroke.points, first, normal, row);
        proof {
            let n = stroke.points.len() as int;
            let (done, laid) = strokes_drawn(strokes@, first, *normal, *row, base, k as int);
            if n >= 2 {
                law_ribbon_sizes(stroke.ink, stroke.points@, first, *normal, *row, base, n);
                let rows = ribbon_rows(stroke.ink, stroke.points@, first, *normal, *row, n);
                assert(vertices + done + rows =~= vertices + (done + rows));
                let more = ribbon_strips(base + done.len(), n);
                assert(indices + laid + more =~= indices + (laid + more));
            }
        }
        k += 1;
    }
}

/// A stroke among others looks as it does alone: behind the vertices and indices
/// of those before it come its own rows, and strips that name its own rows only.
pub proof fn law_strokes_stay_apart<
    T,
    P,
    N,
    V,
    H: Fn(P, P) -> Option<N>,
    R: Fn(T, RibbonPoint<P, N>) -> Row<V>,
>(strokes: Seq<Stroke<P, T>>, first: N, normal: H, row: R, base: int, k: int, q: int)
    requires
        0 <= base,
        0 <= k < strokes.len(),
        base + strokes_drawn(strokes, first, normal, row, base, k + 1).0.len() <= u32::MAX,
        strokes_drawn(strokes, first, normal, row, base, k).1.len() <= q,
        q < strokes_drawn(strokes, first, normal, row, base, k + 1).1.len(),
    ensures
        ({
            let before = strokes_drawn(strokes, first, normal, row, base, k);
            let after = strokes_drawn(strokes, first, normal, row, base, k + 1);
            &&& before.0.len() + 4 * strokes[k].points.len() == after.0.len()
            &&& before.0 == after.0.take(before.0.len() as int)
            &&& before.1 == after.1.take(before.1.len() as int)
            &&& base + before.0.len() <= after.1[q] < base + after.0.len()
        }),
{
    let before = strokes_drawn(strokes, first, normal, row, base, k);
    let after = strokes_drawn(strokes, first, normal, row, base, k + 1);
    let n = strokes[k].points.len() as int;
    let start = base + before.0.len();
    lemma_rows_len(strokes[k].ink, strokes[k].points@, first, normal, row, n);
    lemma_strips_len(start, n);
    let d = q - before.1.len();
    law_strips_join_neighbours(start, n, d / 18);
    assert(after.1[q] == ribbon_strips(start, n)[d]);
    assert(before.0 =~= after.0.take(before.0.len() as int));
    assert(before.1 =~= after.1.take(before.1.len() as int));
}

/// The strokes of traced lines, coloured by the field along them.
pub fn emit_streamlines<P, D>(lines: Vec<Vec<P>>) -> (strokes: Vec<Stroke<P, Ink<D>>>)
    ensures
        strokes.len() == lines.len(),
        forall|k: int|
            0 <= k < lines.len() ==> (#[trigger] strokes[k]).points == lines[k] && strokes[k].ink
                == Ink::<D>::Field,
{
    let mut strokes: Vec<Stroke<P, Ink<D>>> = Vec::new();
    for points in it: lines
        invariant
            strokes.len() == it.index(),
            forall|k: int|
                0 <= k < it.index() ==> (#[trigger] strokes[k]).points == it.seq()[k]
                    && strokes[k].ink == Ink::<D>::Field,
    {
        strokes.push(Stroke { points, ink: Ink::Field });
    }
    strokes
}

/// The strokes of an arrow: its shaft and, where arrows have heads, a barb to
/// either side of its tip.
pub open spec fn arrow_size(arrowheads: bool) -> int {
    if arrowheads {
        3
    } else {
        1
    }
}

/// The points of stroke `part` of an arrow.
pub open spec fn arrow_part<P>(shaft: (P, P), barbs: (P, P), part: int) -> Seq<P> {
    if part == 0 {
        seq![shaft.0, shaft.1]
    } else if part == 1 {
        seq![shaft.1, barbs.0]
    } else {
        seq![shaft.1, barbs.1]
    }
}

/// A list of strokes is that of one arrow per cell, in the order of the cells.
pub open spec fn are_arrows<P, D, S: Fn(D, usize, usize) -> (P, P), B: Fn(D, usize, usize) -> (P, P)>(
    strokes: Seq<Stroke<P, Ink<D>>>,
    cells: Seq<D>,
    cols: int,
    arrowheads: bool,
    shaft: S,
    barbs: B,
) -> bool {
    let size = arrow_size(arrowheads);
    &&& strokes.len() == size * cells.len()
    &&& forall|q: int|
        0 <= q < strokes.len() ==> {
            let at = q / size;
            let (row, col) = ((at / cols) as usize, (at % cols) as usize);
            &&& (#[trigger] strokes[q]).ink == Ink::Cell(cells[at])
            &&& strokes[q].points@ == arrow_part(
                answer3(shaft, cells[at], row, col),
                answer3(barbs, cells[at], row, col),
                q % size,
            )
        }
}

/// The ends of the arrows are answers that the kernels gave.
pub open spec fn arrows_made<P, D, S: Fn(D, usize, usize) -> (P, P), B: Fn(D, usize, usize) -> (P, P)>(
    cells: Seq<D>,
    cols: int,
    arrowheads: bool,
    shaft: S,
    barbs: B,
) -> bool {
    forall|at: int|
        0 <= at < cells.len() ==> answered3(
            shaft,
            #[trigger] cells[at],
            (at / cols) as usize,
            (at % cols) as usize,
        ) && (arrowheads ==> answered3(
            barbs,
            cells[at],
            (at / cols) as usize,
            (at % cols) as usize,
        ))
}

/// The arrow of a cell: a shaft from its anchor to its tip, and with heads two
/// barbs that both start at the tip, one to each side; all in the cell's ink.
/// Cells follow each other row by row.
pub proof fn law_arrows_stand_in_their_cells<
    P,
    D,
    S: Fn(D, usize, usize) -> (P, P),
    B: Fn(D, usize, usize) -> (P, P),
>(
    strokes: Seq<Stroke<P, Ink<D>>>,
    cells: Seq<D>,
    cols: int,
    rows: int,
    arrowheads: bool,
    shaft: S,
    barbs: B,
    r: int,
    c: int,
)
    requires
        are_arrows(strokes, cells, cols, arrowheads, shaft, barbs),
        cells.len() == rows * cols,
        0 <= r < rows <= usize::MAX,
        0 <= c < cols <= usize::MAX,
    ensures
        ({
            let at = r * cols + c;
            let (anchor, tip) = answer3(shaft, cells[at], r as usize, c as usize);
            let (one, other) = answer3(barbs, cells[at], r as usize, c as usize);
            &&& 0 <= at < cells.len()
            &&& !arrowheads ==> {
                &&& strokes.len() == cells.len()
                &&& strokes[at].points@ == seq![anchor, tip]
                &&& strokes[at].ink == Ink::Cell(cells[at])
            }
            &&& arrowheads ==> {
                &&& strokes.len() == 3 * cells.len()
                &&& strokes[3 * at].points@ == seq![anchor, tip]
                &&& strokes[3 * at + 1].points@ == seq![tip, one]
                &&& strokes[3 * at + 2].points@ == seq![tip, other]
                &&& strokes[3 * at].ink == Ink::Cell(cells[at])
                &&& strokes[3 * at + 1].ink == Ink::Cell(cells[at])
                &&& strokes[3 * at + 2].ink == Ink::Cell(cells[at])
            }
        }),
{
    let at = r * cols + c;
    assert(0 <= at < rows * cols && at / cols == r && at % cols == c) by (nonlinear_arith)
        requires
            at == r * cols + c,
            cols >= 1,
            0 <= r < rows,
            0 <= c < cols,
    ;
    if arrowheads {
        assert((3 * at) / 3 == at && (3 * at) % 3 == 0);
        assert((3 * at + 1) / 3 == at && (3 * at + 1) % 3 == 1);
        assert((3 * at + 2) / 3 == at && (3 * at + 2) % 3 == 2);
        assert(strokes[3 * at].ink == Ink::Cell(cells[at]));
        assert(strokes[3 * at + 1].ink == Ink::Cell(cells[at]));
        assert(strokes[3 * at + 2].ink == Ink::Cell(cells[at]));
    } else {
        assert(at / 1 == at && at % 1 == 0);
        assert(strokes[at].ink == Ink::Cell(cells[at]));
    }
}

fn pair<P, D>(a: P, b: P, d: D) -> (stroke: Stroke<P, Ink<D>>)
    ensures
        stroke.points@ == seq![a, b],
        stroke.ink == Ink::Cell(d),
{
    let mut points: Vec<P> = Vec::new();
    points.push(a);
    points.push(b);
    assert(points@ =~= seq![a, b]);
    Stroke { points, ink: Ink::Cell(d) }
}

/// The strokes of the arrows of a field. `shaft` gives an arrow's two ends and
/// `barbs` the far ends of its head's two barbs, for the direction, row and
/// column of a cell.
pub fn emit_arrows<
    P: Copy,
    D: Copy,
    S: Fn(D, usize, usize) -> (P, P),
    B: Fn(D, usize, usize) -> (P, P),
>(field: &FlowField<D>, arrowheads: bool, shaft: &S, barbs: &B) -> (strokes: Vec<Stroke<P, Ink<D>>>)
    requires
        field.wf(),
        field.cols >= 1,
        single_valued3(*shaft),
        single_valued3(*barbs),
        forall|d: D, r: usize, c: usize| shaft.requires((d, r, c)),
        forall|d: D, r: usize, c: usize| barbs.requires((d, r, c)),
    ensures
        are_arrows(strokes@, field.cells@, field.cols as int, arrowheads, *shaft, *barbs),
        arrows_made(field.cells@, field.cols as int, arrowheads, *shaft, *barbs),
{
    let mut strokes: Vec<Stroke<P, Ink<D>>> = Vec::new();
    let cols: usize = field.cols;
    let ghost size = arrow_size(arrowheads);
    let mut at: usize = 0;
    while at < field.cells.len()
        invariant
            at <= field.cells.len(),
            cols == field.cols,
            cols >= 1,
            size == arrow_size(arrowheads),
            single_valued3(*shaft),
            single_valued3(*barbs),
            forall|d: D, r: usize, c: usize| shaft.requires((d, r, c)),
            forall|d: D, r: usize, c: usize| barbs.requires((d, r, c)),
            strokes.len() == size * at,
            are_arrows(
                strokes@,
                field.cells@.take(at as int),
                cols as int,
                arrowheads,
                *shaft,
                *barbs,
            ),
            arrows_made(field.cells@.take(at as int), cols as int, arrowheads, *shaft, *barbs),
        decreases field.cells.len() - at,
    {
        let d: D = field.cells[at];
        let row: usize = at / cols;
        let col: usize = at % cols;
        let ghost before = strokes@;
        let line: (P, P) = shaft(d, row, col);
        proof {
            lemma_answer3(*shaft, d, row, col, line);
        }
        strokes.push(pair(line.0, line.1, d));
        if arrowheads {
            let ends: (P, P) = barbs(d, row, col);
            proof {
                lemma_answer3(*barbs, d, row, col, ends);
            }
            strokes.push(pair(line.1, ends.0, d));
            strokes.push(pair(line.1, ends.1, d));
        }
        proof {
            let cells = field.cells@.take(at + 1);
            assert forall|j: int| 0 <= j < cells.len() implies answered3(
                *shaft,
                #[trigger] cells[j],
                (j / cols as int) as usize,
                (j % cols as int) as usize,
            ) && (arrowheads ==> answered3(
                *barbs,
                cells[j],
                (j / cols as int) as usize,
                (j % cols as int) as usize,
            )) by {
                if j < at {
                    assert(field.cells@.take(at as int)[j] == cells[j]);
                }
            }
            assert forall|q: int| 0 <= q < strokes.len() implies ({
                let k = q / size;
                let (r, c) = ((k / cols as int) as usize, (k % cols as int) as usize);
                &&& (#[trigger] strokes[q]).ink == Ink::Cell(cells[k])
                &&& strokes[q].points@ == arrow_part(
                    answer3(*shaft, cells[k], r, c),
                    answer3(*barbs, cells[k], r, c),
                    q % size,
                )
            }) by {
                if q < before.len() {
                    assert(strokes[q] == before[q]);
                    assert(q / size < at);
                    assert(field.cells@.take(at as int)[q / size] == cells[q / size]);
                } else {
                    assert(q / size == at && q % size == q - size * at);
                }
            }
        }
        at += 1;
    }
    assert(field.cells@.take(at as int) =~= field.cells@);
    strokes
}

/// Every stroke of two points or more is drawn, with its row of four vertices at
/// each point and the strips between them; one with fewer adds nothing.
pub proof fn law_strokes_are_all_drawn<
    T,
    P,
    N,
    V,
    H: Fn(P, P) -> Option<N>,
    R: Fn(T, RibbonPoint<P, N>) -> Row<V>,
>(strokes: Seq<Stroke<P, T>>, first: N, normal: H, row: R, base: int, k: int)
    requires
        0 <= k < strokes.len(),
    ensures
        ({
            let before = strokes_drawn(strokes, first, normal, row, base, k);
            let after = strokes_drawn(strokes, first, normal, row, base, k + 1);
            let stroke = strokes[k];
            let n = stroke.points.len() as int;
            &&& n < 2 ==> after == before
            &&& n >= 2 ==> {
                &&& after.0.len() == before.0.len() + 4 * n
                &&& after.1.len() == before.1.len() + 18 * (n - 1)
                &&& after.0.skip(before.0.len() as int) == ribbon_rows(
                    stroke.ink,
                    stroke.points@,
                    first,
                    normal,
                    row,
                    n,
                )
                &&& after.1.skip(before.1.len() as int) == ribbon_strips(base + before.0.len(), n)
            }
        }),
{
    let before = strokes_drawn(strokes, first, normal, row, base, k);
    let after = strokes_drawn(strokes, first, normal, row, base, k + 1);
    let stroke = strokes[k];
    let n = stroke.points.len() as int;
    if n >= 2 {
        let rows = ribbon_rows(stroke.ink, stroke.points@, first, normal, row, n);
        let strips = ribbon_strips(base + before.0.len(), n);
        lemma_rows_len(stroke.ink, stroke.points@, first, normal, row, n);
        lemma_strips_len(base + before.0.len(), n);
        assert(after.0.skip(before.0.len() as int) =~= rows);
        assert(after.1.skip(before.1.len() as int) =~= strips);
    }
}

} // verus!
