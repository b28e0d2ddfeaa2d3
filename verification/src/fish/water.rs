//! The pond: its surface, its ripples and how its layers are drawn.

use vstd::prelude::*;

use crate::oracle::{
    answer1, answer2, answered2, lemma_answer1, lemma_answer2, single_valued1, single_valued2,
};

verus! {

/// The look of the water.
#[derive(Clone, Copy, Debug, PartialEq, Eq, Hash, Structural)]
pub enum WaterStyle {
    Natural,
    Sketch,
    Glossy,
}

impl Default for WaterStyle {
    fn default() -> (style: WaterStyle)
        ensures
            style == WaterStyle::Natural,
    {
        WaterStyle::Natural
    }
}

impl WaterStyle {
    /// The style behind this one, around and around.
    pub open spec fn following(self) -> WaterStyle {
        match self {
            WaterStyle::Natural => WaterStyle::Sketch,
            WaterStyle::Sketch => WaterStyle::Glossy,
            WaterStyle::Glossy => WaterStyle::Natural,
        }
    }

    /// The next style.
    pub fn next(self) -> (style: WaterStyle)
        ensures
            style == self.following(),
    {
        match self {
            WaterStyle::Natural => WaterStyle::Sketch,
            WaterStyle::Sketch => WaterStyle::Glossy,
            WaterStyle::Glossy => WaterStyle::Natural,
        }
    }

    /// The style's number in the shaders.
    pub fn number(self) -> (n: u32)
        ensures
            n == (match self {
                WaterStyle::Natural => 0u32,
                WaterStyle::Sketch => 1u32,
                WaterStyle::Glossy => 2u32,
            }),
    {
        match self {
            WaterStyle::Natural => 0,
            WaterStyle::Sketch => 1,
            WaterStyle::Glossy => 2,
        }
    }

    /// The style's name.
    pub fn label(self) -> (name: &'static str)
        ensures
            name@ == (match self {
                WaterStyle::Natural => "Natural"@,
                WaterStyle::Sketch => "Sketch"@,
                WaterStyle::Glossy => "Glossy"@,
            }),
    {
        match self {
            WaterStyle::Natural => "Natural",
            WaterStyle::Sketch => "Sketch",
            WaterStyle::Glossy => "Glossy",
        }
    }
}

/// Three clicks bring a style back.
pub proof fn law_styles_cycle(style: WaterStyle)
    ensures
        style.following().following().following() == style,
        style.following() != style,
{
}

// ---------------------------------------------------------------------------
// The surface: heights on a grid, in two fields that take turns.

/// The heights of the surface, now and one step before.
pub struct RippleGrid<V> {
    pub cols: usize,
    pub rows: usize,
    pub curr: Vec<V>,
    pub prev: Vec<V>,
}

/// A node's height, its height one step before, and its neighbours' heights.
#[derive(Clone, Copy)]
pub struct Stencil<V> {
    pub centre: V,
    pub before: V,
    pub up: V,
    pub down: V,
    pub left: V,
    pub right: V,
}

/// The row (or column) before `i`; the edge has itself before it.
pub open spec fn back(i: int) -> int {
    if i == 0 {
        0
    } else {
        i - 1
    }
}

/// The row (or column) behind `i` of `n`; the edge has itself behind it.
pub open spec fn ahead(i: int, n: int) -> int {
    if i + 1 < n {
        i + 1
    } else {
        n - 1
    }
}

/// The place of the node in row `r` and column `c`.
pub open spec fn node(r: int, c: int, cols: int) -> int {
    r * cols + c
}

/// What the node in row `r` and column `c` sees of the two fields.
pub open spec fn stencil_at<V>(
    curr: Seq<V>,
    prev: Seq<V>,
    cols: int,
    rows: int,
    r: int,
    c: int,
) -> Stencil<V> {
    Stencil {
        centre: curr[node(r, c, cols)],
        before: prev[node(r, c, cols)],
        up: curr[node(back(r), c, cols)],
        down: curr[node(ahead(r, rows), c, cols)],
        left: curr[node(r, back(c), cols)],
        right: curr[node(r, ahead(c, cols), cols)],
    }
}

/// The four nodes around a point in the cell `(c0, r0)`, in the order they are
/// splashed.
pub open spec fn splash_nodes(cols: int, rows: int, c0: int, r0: int) -> Seq<int> {
    let (c1, r1) = (ahead(c0, cols), ahead(r0, rows));
    seq![node(r0, c0, cols), node(r0, c1, cols), node(r1, c0, cols), node(r1, c1, cols)]
}

/// The field after the first `k` nodes were splashed. At the far edges two of
/// them are one node, which then is splashed twice.
pub open spec fn splashed<V, D: Fn(V, usize) -> V>(
    field: Seq<V>,
    nodes: Seq<int>,
    deposit: D,
    k: int,
) -> Seq<V>
    decreases k,
{
    if k <= 0 {
        field
    } else {
        let done = splashed(field, nodes, deposit, k - 1);
        done.update(nodes[k - 1], answer2(deposit, done[nodes[k - 1]], (k - 1) as usize))
    }
}

/// The heights of the first `k` nodes are answers that `deposit` gave.
pub open spec fn splash_made<V, D: Fn(V, usize) -> V>(
    field: Seq<V>,
    nodes: Seq<int>,
    deposit: D,
    k: int,
) -> bool {
    forall|i: int|
        0 <= i < k ==> answered2(
            deposit,
            (#[trigger] splashed(field, nodes, deposit, i))[nodes[i]],
            i as usize,
        )
}

proof fn lemma_node(r: int, c: int, cols: int, rows: int)
    requires
        0 <= r < rows,
        0 <= c < cols,
    ensures
        0 <= r * cols + c < cols * rows,
        0 <= r * cols <= r * cols + c,
{
    assert(0 <= r * cols && r * cols + c < cols * rows) by (nonlinear_arith)
        requires
            0 <= r < rows,
            0 <= c < cols,
    ;
}

proof fn lemma_nodes_apart(r: int, c: int, s: int, d: int, cols: int)
    requires
        0 <= c < cols,
        0 <= d < cols,
        r * cols + c == s * cols + d,
    ensures
        r == s,
        c == d,
{
    assert(r == s) by (nonlinear_arith)
        requires
            0 <= c < cols,
            0 <= d < cols,
            r * cols + c == s * cols + d,
    ;
}

impl<V: Copy> RippleGrid<V> {
    /// Both fields have a height for every node.
    pub open spec fn wf(&self) -> bool {
        &&& self.curr.len() == self.cols * self.rows
        &&& self.prev.len() == self.cols * self.rows
    }

    /// Every node of both fields is `flat`.
    pub open spec fn is_calm(&self, flat: V) -> bool {
        &&& self.curr@ == Seq::new((self.cols * self.rows) as nat, |_i: int| flat)
        &&& self.prev@ == Seq::new((self.cols * self.rows) as nat, |_i: int| flat)
    }

    /// A surface without nodes.
    pub fn new() -> (grid: Self)
        ensures
            grid.wf(),
            grid.cols == 0,
            grid.rows == 0,
    {
        RippleGrid { cols: 0, rows: 0, curr: Vec::new(), prev: Vec::new() }
    }

    /// Flatten the surface.
    pub fn calm(&mut self, flat: V)
        requires
            old(self).wf(),
        ensures
            final(self).wf(),
            final(self).cols == old(self).cols,
            final(self).rows == old(self).rows,
            final(self).is_calm(flat),
    {
        let n: usize = self.curr.len();
        self.curr = filled(n, flat);
        self.prev = filled(n, flat);
    }

    /// Size the surface; a new size starts it calm, the same size leaves it as
    /// it is. Returns whether it was sized anew.
    pub fn resize_for(&mut self, cols: usize, rows: usize, flat: V) -> (anew: bool)
        requires
            old(self).wf(),
            cols * rows <= usize::MAX,
        ensures
            final(self).wf(),
            final(self).cols == cols,
            final(self).rows == rows,
            anew == !(old(self).cols == cols && old(self).rows == rows),
            !anew ==> *final(self) == *old(self),
            anew ==> final(self).is_calm(flat),
    {
        if cols == self.cols && rows == self.rows {
            return false;
        }
        self.cols = cols;
        self.rows = rows;
        self.curr = filled(cols * rows, flat);
        self.prev = filled(cols * rows, flat);
        true
    }

    /// Splash the four nodes around a point in the cell `(c0, r0)`. `deposit`
    /// gives a node's new height from its old one and its number among the
    /// four. A surface of one row or column takes no splash.
    pub fn splat<D: Fn(V, usize) -> V>(&mut self, c0: usize, r0: usize, deposit: D)
        requires
            old(self).wf(),
            c0 < old(self).cols,
            r0 < old(self).rows,
            single_valued2(deposit),
            forall|v: V, k: usize| deposit.requires((v, k)),
        ensures
            final(self).wf(),
            final(self).cols == old(self).cols,
            final(self).rows == old(self).rows,
            final(self).prev == old(self).prev,
            final(self).curr@ == (if old(self).cols < 2 || old(self).rows < 2 {
                old(self).curr@
            } else {
                splashed(
                    old(self).curr@,
                    splash_nodes(
                        old(self).cols as int,
                        old(self).rows as int,
                        c0 as int,
                        r0 as int,
                    ),
                    deposit,
                    4,
                )
            }),
            old(self).cols >= 2 && old(self).rows >= 2 ==> splash_made(
                old(self).curr@,
                splash_nodes(
                    old(self).cols as int,
                    old(self).rows as int,
                    c0 as int,
                    r0 as int,
                ),
                deposit,
                4,
            ),
    {
        if self.cols < 2 || self.rows < 2 {
            return;
        }
        let (cols, rows) = (self.cols, self.rows);
        let c1: usize = if c0 < cols - 1 {
            c0 + 1
        } else {
            cols - 1
        };
        let r1: usize = if r0 < rows - 1 {
            r0 + 1
        } else {
            rows - 1
        };
        let ghost field = self.curr@;
        let ghost nodes = splash_nodes(cols as int, rows as int, c0 as int, r0 as int);
        proof {
            lemma_node(r0 as int, c0 as int, cols as int, rows as int);
            lemma_node(r0 as int, c1 as int, cols as int, rows as int);
            lemma_node(r1 as int, c0 as int, cols as int, rows as int);
            lemma_node(r1 as int, c1 as int, cols as int, rows as int);
            assert(self.curr.len() == cols * rows);
        }
        let mut k: usize = 0;
        while k < 4
            invariant
                k <= 4,
                c0 < cols,
                r0 < rows,
                c1 < cols,
                r1 < rows,
                c1 == ahead(c0 as int, cols as int),
                r1 == ahead(r0 as int, rows as int),
                0 <= r0 * cols + c0 < cols * rows,
                0 <= r0 * cols + c1 < cols * rows,
                0 <= r1 * cols + c0 < cols * rows,
                0 <= r1 * cols + c1 < cols * rows,
                0 <= r0 * cols,
                0 <= r1 * cols,
                self.cols == cols,
                self.rows == rows,
                self.prev == old(self).prev,
                self.curr.len() == cols * rows,
                nodes == splash_nodes(cols as int, rows as int, c0 as int, r0 as int),
                single_valued2(deposit),
                forall|v: V, j: usize| deposit.requires((v, j)),
                self.curr@ == splashed(field, nodes, deposit, k as int),
                splash_made(field, nodes, deposit, k as int),
            decreases 4 - k,
        {
            let row: usize = if k < 2 {
                r0 * cols
            } else {
                r1 * cols
            };
            let at: usize = if k == 0 || k == 2 {
                row + c0
            } else {
                row + c1
            };
            assert(at == nodes[k as int]);
            let height: V = self.curr[at];
            let raised: V = deposit(height, k);
            proof {
                lemma_answer2(deposit, height, k, raised);
            }
            self.curr.set(at, raised);
            k += 1;
        }
    }

    /// One step of the surface: `next` gives a node's next height from what it
    /// sees. Every node sees the surface as it was before the step. A surface
    /// of one row or column does not move.
    pub fn step<F: Fn(Stencil<V>) -> V>(&mut self, next: &F)
        requires
            old(self).wf(),
            single_valued1(*next),
            forall|s: Stencil<V>| next.requires((s,)),
        ensures
            final(self).wf(),
            final(self).cols == old(self).cols,
            final(self).rows == old(self).rows,
            old(self).cols < 2 || old(self).rows < 2 ==> *final(self) == *old(self),
            old(self).cols >= 2 && old(self).rows >= 2 ==> {
                &&& final(self).prev@ == old(self).curr@
                &&& forall|r: int, c: int|
                    0 <= r < old(self).rows && 0 <= c < old(self).cols ==> final(self).curr@[#[trigger] node(r, c, old(self).cols as int)] == answer1(
                        *next,
                        stencil_at(
                            old(self).curr@,
                            old(self).prev@,
                            old(self).cols as int,
                            old(self).rows as int,
                            r,
                            c,
                        ),
                    )
                &&& forall|r: int, c: int|
                    0 <= r < old(self).rows && 0 <= c < old(self).cols ==> next.ensures(
                        (
                            stencil_at(
                                old(self).curr@,
                                old(self).prev@,
                                old(self).cols as int,
                                old(self).rows as int,
                                r,
                                c,
                            ),
                        ),
                        final(self).curr@[#[trigger] node(r, c, old(self).cols as int)],
                    )
            },
    {
        let (cols, rows) = (self.cols, self.rows);
        if cols < 2 || rows < 2 {
            return;
        }
        let ghost (curr, prev) = (self.curr@, self.prev@);
        let ghost (nc, nr) = (cols as int, rows as int);
        let mut r: usize = 0;
        while r < rows
            invariant
                r <= rows,
                cols >= 2,
                rows >= 2,
                nc == cols,
                nr == rows,
                self.cols == cols,
                self.rows == rows,
                self.curr@ == curr,
                curr.len() == cols * rows,
                prev.len() == cols * rows,
                self.prev.len() == cols * rows,
                single_valued1(*next),
                forall|s: Stencil<V>| next.requires((s,)),
                forall|s: int, d: int|
                    0 <= s < r && 0 <= d < cols ==> self.prev@[#[trigger] node(s, d, nc)] == answer1(
                        *next,
                        stencil_at(curr, prev, nc, nr, s, d),
                    ),
                forall|s: int, d: int|
                    0 <= s < r && 0 <= d < cols ==> next.ensures(
                        (stencil_at(curr, prev, nc, nr, s, d),),
                        self.prev@[#[trigger] node(s, d, nc)],
                    ),
                forall|s: int, d: int|
                    r <= s < rows && 0 <= d < cols ==> self.prev@[#[trigger] node(s, d, nc)] == prev[node(s, d, nc)],
            decreases rows - r,
        {
            let up: usize = if r == 0 {
                0
            } else {
                r - 1
            };
            let down: usize = if r < rows - 1 {
                r + 1
            } else {
                rows - 1
            };
            let mut c: usize = 0;
            while c < cols
                invariant
                    r < rows,
                    c <= cols,
                    cols >= 2,
                    rows >= 2,
                    nc == cols,
                    nr == rows,
                    up == back(r as int),
                    down == ahead(r as int, rows as int),
                    self.cols == cols,
                    self.rows == rows,
                    self.curr@ == curr,
                    curr.len() == cols * rows,
                    prev.len() == cols * rows,
                    self.prev.len() == cols * rows,
                    single_valued1(*next),
                    forall|s: Stencil<V>| next.requires((s,)),
                    forall|s: int, d: int|
                        0 <= d < cols && (0 <= s < r || (s == r && d < c)) ==> self.prev@[#[trigger] node(s, d, nc)] == answer1(*next, stencil_at(curr, prev, nc, nr, s, d)),
                    forall|s: int, d: int|
                        0 <= d < cols && (0 <= s < r || (s == r && d < c)) ==> next.ensures(
                            (stencil_at(curr, prev, nc, nr, s, d),),
                            self.prev@[#[trigger] node(s, d, nc)],
                        ),
                    forall|s: int, d: int|
                        0 <= d < cols && (r < s < rows || (s == r && c <= d)) ==> self.prev@[#[trigger] node(s, d, nc)] == prev[node(s, d, nc)],
                decreases cols - c,
            {
                let left: usize = if c == 0 {
                    0
                } else {
                    c - 1
                };
                let right: usize = if c < cols - 1 {
                    c + 1
                } else {
                    cols - 1
                };
                proof {
                    lemma_node(r as int, c as int, nc, nr);
                    lemma_node(up as int, c as int, nc, nr);
                    lemma_node(down as int, c as int, nc, nr);
                    lemma_node(r as int, left as int, nc, nr);
                    lemma_node(r as int, right as int, nc, nr);
                }
                let at: usize = r * cols + c;
                let ghost seen = stencil_at(curr, prev, nc, nr, r as int, c as int);
                assert(self.prev@[at as int] == prev[at as int]);
                let stencil: Stencil<V> = Stencil {
                    centre: self.curr[at],
                    before: self.prev[at],
                    up: self.curr[up * cols + c],
                    down: self.curr[down * cols + c],
                    left: self.curr[r * cols + left],
                    right: self.curr[r * cols + right],
                };
                assert(stencil == seen);
                let height: V = next(stencil);
                let ghost was = self.prev@;
                self.prev.set(at, height);
                proof {
                    lemma_answer1(*next, stencil, height);
                    assert forall|s: int, d: int|
                        0 <= s < rows && 0 <= d < cols && !(s == r && d == c) implies self.prev@[#[trigger] node(s, d, nc)] == was[node(s, d, nc)] by {
                        lemma_node(s, d, nc, nr);
                        if node(s, d, nc) == at {
                            lemma_nodes_apart(s, d, r as int, c as int, nc);
                        }
                    }
                }
                c += 1;
            }
            r += 1;
        }
        core::mem::swap(&mut self.curr, &mut self.prev);
    }
}

/// A list of `n` times `v`.
pub fn filled<V: Copy>(n: usize, v: V) -> (all: Vec<V>)
    ensures
        all@ == Seq::new(n as nat, |_i: int| v),
{
    let mut all: Vec<V> = Vec::new();
    let mut i: usize = 0;
    while i < n
        invariant
            i <= n,
            all@ == Seq::new(i as nat, |_i: int| v),
        decreases n - i,
    {
        all.push(v);
        i += 1;
        assert(all@ =~= Seq::new(i as nat, |_i: int| v));
    }
    all
}

/// A node's next height is worked out of its own, now and before, and of those of
/// the nodes one row up and down and one column left and right; at the border a
/// node stands in for the neighbour that it lacks.
pub proof fn law_stencils_hold_the_four_neighbours<V>(
    curr: Seq<V>,
    prev: Seq<V>,
    cols: int,
    rows: int,
    r: int,
    c: int,
)
    requires
        0 <= r < rows,
        0 <= c < cols,
    ensures
        ({
            let s = stencil_at(curr, prev, cols, rows, r, c);
            let here = r * cols + c;
            &&& s.centre == curr[here]
            &&& s.before == prev[here]
            &&& r > 0 ==> s.up == curr[here - cols]
            &&& r == 0 ==> s.up == s.centre
            &&& r < rows - 1 ==> s.down == curr[here + cols]
            &&& r == rows - 1 ==> s.down == s.centre
            &&& c > 0 ==> s.left == curr[here - 1]
            &&& c == 0 ==> s.left == s.centre
            &&& c < cols - 1 ==> s.right == curr[here + 1]
            &&& c == cols - 1 ==> s.right == s.centre
        }),
{
    assert((r - 1) * cols + c == r * cols + c - cols) by (nonlinear_arith);
    assert((r + 1) * cols + c == r * cols + c + cols) by (nonlinear_arith);
    assert(node(r, c, cols) == r * cols + c);
    assert(node(r - 1, c, cols) == r * cols + c - cols);
    assert(node(r + 1, c, cols) == r * cols + c + cols);
    assert(node(r, c - 1, cols) == r * cols + c - 1);
    assert(node(r, c + 1, cols) == r * cols + c + 1);
}

/// The nodes of a grid stand row by row, each in a place of its own.
pub proof fn law_nodes_stand_row_by_row(r: int, c: int, s: int, d: int, cols: int, rows: int)
    requires
        0 <= r < rows,
        0 <= c < cols,
        0 <= s < rows,
        0 <= d < cols,
    ensures
        0 <= node(r, c, cols) < cols * rows,
        node(r, c, cols) == node(s, d, cols) ==> r == s && c == d,
        node(0, 0, cols) == 0,
        node(r, c + 1, cols) == node(r, c, cols) + 1,
        node(r + 1, c, cols) == node(r, c, cols) + cols,
{
    assert(0 <= r * cols + c < cols * rows) by (nonlinear_arith)
        requires
            0 <= r < rows,
            0 <= c < cols,
    ;
    assert((r + 1) * cols == r * cols + cols) by (nonlinear_arith);
    assert(0 * cols == 0);
    if r * cols + c == s * cols + d {
        assert(r == s) by (nonlinear_arith)
            requires
                r * cols + c == s * cols + d,
                0 <= c < cols,
                0 <= d < cols,
        ;
    }
}

/// A splash raises the four nodes round its place, once each and each by its own
/// part, from what it was before; no other node moves.
pub proof fn law_splashes_raise_four_nodes<V, D: Fn(V, usize) -> V>(
    field: Seq<V>,
    cols: int,
    rows: int,
    c0: int,
    r0: int,
    deposit: D,
    q: int,
)
    requires
        field.len() == cols * rows,
        0 <= c0 < cols - 1,
        0 <= r0 < rows - 1,
        0 <= q < field.len(),
    ensures
        ({
            let after = splashed(field, splash_nodes(cols, rows, c0, r0), deposit, 4);
            let here = r0 * cols + c0;
            &&& after.len() == field.len()
            &&& after[here] == answer2(deposit, field[here], 0usize)
            &&& after[here + 1] == answer2(deposit, field[here + 1], 1usize)
            &&& after[here + cols] == answer2(deposit, field[here + cols], 2usize)
            &&& after[here + cols + 1] == answer2(deposit, field[here + cols + 1], 3usize)
            &&& q != here && q != here + 1 && q != here + cols && q != here + cols + 1
                ==> after[q] == field[q]
        }),
{
    let nodes = splash_nodes(cols, rows, c0, r0);
    let here = r0 * cols + c0;
    assert((r0 + 1) * cols + c0 == here + cols) by (nonlinear_arith)
        requires
            here == r0 * cols + c0,
    ;
    assert(0 <= here && here + cols + 1 < cols * rows) by (nonlinear_arith)
        requires
            here == r0 * cols + c0,
            0 <= c0 < cols - 1,
            0 <= r0 < rows - 1,
    ;
    assert(nodes =~= seq![here, here + 1, here + cols, here + cols + 1]);
    reveal_with_fuel(splashed, 5);
}

} // verus!
