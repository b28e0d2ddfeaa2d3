//! The whole forest: which trees it has, when they are grown and drawn anew.

use vstd::prelude::*;

use crate::arith::most;
use crate::forest::geometry::{build_geometry, drawn, marks_made, vertex_bound};
use crate::forest::lsystem::{
    count_of, count_segments, expand, law_budget_caps_segments, law_stages_are_grown, rounds_within,
    stage, stage_segments, Probs, TOK_B, TOK_F, TOK_S,
};
use crate::forest::turtle::{marks_of, walk_made, Turtle};
use crate::mesh::{shifted, Mesh};
use crate::oracle::{answer1, answered1, lemma_answer1, single_valued1, single_valued2};
use crate::pattern::{equal, is_number, same_number};
use crate::random::any_number;
use crate::rng::{mixed, splitmix, Rng};
use crate::shell::{AppState, ExperimentId};

verus! {

/// The most segments of a whole forest, which the trees share as their budgets.
pub const MAX_SEGMENTS: u64 = 2_000_000;

/// The least budget of a tree.
pub const MIN_BUDGET: u64 = 1024;

/// The most rounds that a tree grows.
pub const MAX_GROWTH: u32 = 64;

/// The most trees whose vertices can be numbered with 32 bits, however full they
/// grow.
pub const MAX_TREES: usize = 303_717;

/// The time between two rebuilds while a slider is held: a fifteenth of a
/// second, in nanoseconds, rounded up.
pub const REGROW_THROTTLE: u64 = 66_666_667;

/// What the trees' tokens depend on: the rounds, and the bit patterns of the
/// chances of the rewriting.
#[derive(Clone, Copy, Debug, PartialEq, Eq, Structural)]
pub struct StructSig {
    pub growth: u32,
    pub no_expand: u32,
    pub forward: u32,
    pub left: u32,
    pub right: u32,
    pub center: u32,
}

/// What the trees' drawing depends on besides their tokens: bit patterns of the
/// measures, whether there are leaves, and the size of the window.
#[derive(Clone, Copy, Debug, PartialEq, Eq, Structural)]
pub struct GeoSig {
    pub branch_angle: u32,
    pub branch_length: u32,
    pub trunk_width: u32,
    pub size_variation: u32,
    pub leaves: bool,
    pub leaf_size: u32,
    pub leaf_density: u32,
    pub width: u32,
    pub height: u32,
}

impl StructSig {
    /// All measures are numbers.
    pub open spec fn is_measured(self) -> bool {
        &&& is_number(self.no_expand)
        &&& is_number(self.forward)
        &&& is_number(self.left)
        &&& is_number(self.right)
        &&& is_number(self.center)
    }

    /// Both ask for the same. Measures are compared as numbers: what is none
    /// differs from itself.
    pub open spec fn same(self, other: StructSig) -> bool {
        &&& self.growth == other.growth
        &&& same_number(self.no_expand, other.no_expand)
        &&& same_number(self.forward, other.forward)
        &&& same_number(self.left, other.left)
        &&& same_number(self.right, other.right)
        &&& same_number(self.center, other.center)
    }

    /// Whether both ask for the same.
    pub fn is_same(&self, other: &StructSig) -> (same: bool)
        ensures
            same == self.same(*other),
    {
        self.growth == other.growth
            && equal(self.no_expand, other.no_expand)
            && equal(self.forward, other.forward)
            && equal(self.left, other.left)
            && equal(self.right, other.right)
            && equal(self.center, other.center)
    }
}

impl GeoSig {
    /// All measures are numbers.
    pub open spec fn is_measured(self) -> bool {
        &&& is_number(self.branch_angle)
        &&& is_number(self.branch_length)
        &&& is_number(self.trunk_width)
        &&& is_number(self.size_variation)
        &&& is_number(self.leaf_size)
        &&& is_number(self.leaf_density)
        &&& is_number(self.width)
        &&& is_number(self.height)
    }

    /// Both ask for the same. Measures are compared as numbers: what is none
    /// differs from itself.
    pub open spec fn same(self, other: GeoSig) -> bool {
        &&& same_number(self.branch_angle, other.branch_angle)
        &&& same_number(self.branch_length, other.branch_length)
        &&& same_number(self.trunk_width, other.trunk_width)
        &&& same_number(self.size_variation, other.size_variation)
        &&& self.leaves == other.leaves
        &&& same_number(self.leaf_size, other.leaf_size)
        &&& same_number(self.leaf_density, other.leaf_density)
        &&& same_number(self.width, other.width)
        &&& same_number(self.height, other.height)
    }

    /// Whether both ask for the same.
    pub fn is_same(&self, other: &GeoSig) -> (same: bool)
        ensures
            same == self.same(*other),
    {
        equal(self.branch_angle, other.branch_angle)
            && equal(self.branch_length, other.branch_length)
            && equal(self.trunk_width, other.trunk_width)
            && equal(self.size_variation, other.size_variation)
            && self.leaves == other.leaves
            && equal(self.leaf_size, other.leaf_size)
            && equal(self.leaf_density, other.leaf_density)
            && equal(self.width, other.width)
            && equal(self.height, other.height)
    }
}

/// The tokens were grown for what a signature asks for.
pub open spec fn grown_same(own: Option<StructSig>, sig: StructSig) -> bool {
    own matches Some(own) && own.same(sig)
}

/// One tree: its seed, its tokens, and what they were grown for.
pub struct Tree {
    pub seed: u64,
    pub tokens: Vec<u8>,
    pub token_sig: Option<StructSig>,
    pub segments: u64,
}

/// A tree's share of the segments among `n` trees.
pub open spec fn share(n: int) -> int {
    most(MAX_SEGMENTS as int / most(n, 1), MIN_BUDGET as int)
}

/// A tree's share of the segments among `n` trees.
pub fn budget(n: usize) -> (b: u64)
    ensures
        b == share(n as int),
{
    let trees: u64 = if n < 1 {
        1
    } else {
        n as u64
    };
    let b: u64 = MAX_SEGMENTS / trees;
    if b < MIN_BUDGET {
        MIN_BUDGET
    } else {
        b
    }
}

/// The shares of the first `n` trees, each as large as when it was alone with
/// those before it.
pub open spec fn shares(n: int) -> int
    decreases n,
{
    if n <= 0 {
        0
    } else {
        shares(n - 1) + share(n)
    }
}

proof fn lemma_share_falls(a: int, b: int)
    requires
        1 <= a <= b,
    ensures
        MIN_BUDGET <= share(b) <= share(a) <= MAX_SEGMENTS,
{
    vstd::arithmetic::div_mod::lemma_div_is_ordered_by_denominator(MAX_SEGMENTS as int, a, b);
    vstd::arithmetic::div_mod::lemma_div_is_ordered_by_denominator(MAX_SEGMENTS as int, 1, a);
}

proof fn lemma_shares_block(a: int, b: int)
    requires
        0 <= a <= b,
    ensures
        shares(b) <= shares(a) + (b - a) * share(a + 1),
        shares(a) <= shares(b),
    decreases b - a,
{
    if a < b {
        lemma_shares_block(a, b - 1);
        lemma_share_falls(a + 1, b);
        assert((b - a) * share(a + 1) == (b - 1 - a) * share(a + 1) + share(a + 1))
            by (nonlinear_arith);
    } else {
        assert(0 * share(a + 1) == 0);
    }
}

proof fn lemma_share_value(n: int, q: int)
    requires
        n >= 1,
        q * n <= MAX_SEGMENTS < q * n + n,
    ensures
        share(n) == most(q, MIN_BUDGET as int),
{
    vstd::arithmetic::div_mod::lemma_fundamental_div_mod_converse(
        MAX_SEGMENTS as int,
        n,
        q,
        MAX_SEGMENTS - q * n,
    );
}

/// However the trees came about, their shares stay within what can be numbered.
proof fn lemma_shares_bound(n: int)
    requires
        0 <= n <= MAX_TREES,
    ensures
        0 <= shares(n) <= 330_381_300,
{
    lemma_shares_block(0, n);
    lemma_shares_block(n, 303_717);
    lemma_shares_block(0, 1);
    lemma_share_value(1, 2000000);
    assert(shares(1) <= 2000000);
    lemma_shares_block(1, 2);
    lemma_share_value(2, 1000000);
    assert(shares(2) <= 3000000);
    lemma_shares_block(2, 4);
    lemma_share_value(3, 666666);
    assert(shares(4) <= 4333332);
    lemma_shares_block(4, 8);
    lemma_share_value(5, 400000);
    assert(shares(8) <= 5933332);
    lemma_shares_block(8, 16);
    lemma_share_value(9, 222222);
    assert(shares(16) <= 7711108);
    lemma_shares_block(16, 32);
    lemma_share_value(17, 117647);
    assert(shares(32) <= 9593460);
    lemma_shares_block(32, 64);
    lemma_share_value(33, 60606);
    assert(shares(64) <= 11532852);
    lemma_shares_block(64, 128);
    lemma_share_value(65, 30769);
    assert(shares(128) <= 13502068);
    lemma_shares_block(128, 256);
    lemma_share_value(129, 15503);
    assert(shares(256) <= 15486452);
    lemma_shares_block(256, 512);
    lemma_share_value(257, 7782);
    assert(shares(512) <= 17478644);
    lemma_shares_block(512, 1024);
    lemma_share_value(513, 3898);
    assert(shares(1024) <= 19474420);
    lemma_shares_block(1024, 2048);
    lemma_share_value(1025, 1951);
    assert(shares(2048) <= 21472244);
    lemma_shares_block(2048, 303_717);
    lemma_share_value(2049, 976);
    assert(shares(303_717) <= 330_381_300);
}

impl Tree {
    /// A tree that has not grown yet.
    pub fn new(seed: u64) -> (tree: Tree)
        ensures
            tree.seed == seed,
            tree.tokens.len() == 0,
            tree.token_sig is None,
            tree.segments == 0,
            tree.wf(0),
    {
        let tokens: Vec<u8> = Vec::new();
        Tree { seed, tokens, token_sig: None, segments: 0 }
    }

    /// The tokens hold the counted segments, no more buds than these, and no
    /// more than the cap allows.
    pub open spec fn wf(&self, cap: int) -> bool {
        &&& self.segments == count_of(self.tokens@, TOK_F)
        &&& count_of(self.tokens@, TOK_B) <= self.segments
        &&& self.segments <= cap
    }

    /// The tokens are those of the tree's seed after its rounds.
    pub open spec fn grown_for(&self, p: Probs, growth: u32, budget: u64) -> bool {
        let state = self.seed | 1;
        let k = rounds_within(state, p, growth as nat, budget);
        &&& self.tokens@ == stage(state, p, k).0
        &&& self.segments == stage_segments(state, p, k)
    }

    /// Grow the tree anew, as deep as its budget allows, unless it was grown for
    /// this signature already.
    pub fn regrow(&mut self, sig: StructSig, p: &Probs, growth: u32, budget: u64)
        requires
            budget >= MIN_BUDGET,
        ensures
            final(self).seed == old(self).seed,
            grown_same(old(self).token_sig, sig) ==> *final(self) == *old(self),
            !grown_same(old(self).token_sig, sig) ==> {
                &&& final(self).token_sig == Some(sig)
                &&& final(self).grown_for(*p, growth, budget)
                &&& final(self).wf(budget as int)
            },
    {
        let stale: bool = match self.token_sig {
            Some(own) => !own.is_same(&sig),
            None => true,
        };
        if stale {
            let mut scratch: Vec<u8> = Vec::new();
            let mut rng: Rng = Rng::new(self.seed);
            let ghost state = rng.state;
            let grown: u64 = expand(&mut self.tokens, &mut scratch, &mut rng, p, growth, budget);
            proof {
                let k = rounds_within(state, *p, growth as nat, budget);
                law_budget_caps_segments(state, *p, growth as nat, budget);
                law_stages_are_grown(state, *p, 1);
                if k > 0 {
                    law_stages_are_grown(state, *p, k);
                } else {
                    assert(count_of(seq![TOK_S], TOK_F) == 0 && count_of(seq![TOK_S], TOK_B) == 0)
                        by {
                        reveal_with_fuel(count_of, 2);
                    }
                }
            }
            if grown > budget {
                self.tokens = scratch;
                self.segments = count_segments(&self.tokens);
            } else {
                self.segments = grown;
            }
            self.token_sig = Some(sig);
        }
    }
}

/// What a tree is drawn as.
pub open spec fn tree_drawn<
    T,
    V,
    O: Fn(u64) -> T,
    A: Fn(T) -> T,
    L: Fn(T) -> T,
    R: Fn(T) -> T,
    D: Fn(T) -> T,
    B: Fn(Turtle<T>, T) -> Option<[V; 8]>,
    F: Fn(T) -> [V; 5],
>(
    tree: Tree,
    leaves: u32,
    root: O,
    ahead: A,
    left: L,
    right: R,
    deepen: D,
    branch: B,
    leaf: F,
) -> (Seq<V>, Seq<u32>) {
    let marks = marks_of(
        tree.tokens@,
        tree.seed,
        leaves,
        answer1(root, tree.seed),
        ahead,
        left,
        right,
        deepen,
    );
    drawn(marks, branch, leaf, marks.len() as int)
}

/// What a tree is drawn as rests on answers that the kernels gave.
pub open spec fn tree_made<
    T,
    V,
    O: Fn(u64) -> T,
    A: Fn(T) -> T,
    L: Fn(T) -> T,
    R: Fn(T) -> T,
    D: Fn(T) -> T,
    B: Fn(Turtle<T>, T) -> Option<[V; 8]>,
    F: Fn(T) -> [V; 5],
>(
    tree: Tree,
    leaves: u32,
    root: O,
    ahead: A,
    left: L,
    right: R,
    deepen: D,
    branch: B,
    leaf: F,
) -> bool {
    let start = answer1(root, tree.seed);
    let marks = marks_of(tree.tokens@, tree.seed, leaves, start, ahead, left, right, deepen);
    &&& answered1(root, tree.seed)
    &&& walk_made(
        tree.tokens@,
        tree.seed,
        leaves,
        start,
        ahead,
        left,
        right,
        deepen,
        tree.tokens.len() as int,
    )
    &&& marks_made(marks, branch, leaf, marks.len() as int)
}

/// What the first `k` trees are drawn as rests on answers that the kernels gave.
pub open spec fn forest_made<
    T,
    V,
    O: Fn(u64) -> T,
    A: Fn(T) -> T,
    L: Fn(T) -> T,
    R: Fn(T) -> T,
    D: Fn(T) -> T,
    B: Fn(Turtle<T>, T) -> Option<[V; 8]>,
    F: Fn(T) -> [V; 5],
>(
    trees: Seq<Tree>,
    leaves: u32,
    root: O,
    ahead: A,
    left: L,
    right: R,
    deepen: D,
    branch: B,
    leaf: F,
    k: int,
) -> bool {
    forall|i: int|
        0 <= i < k ==> tree_made(
            #[trigger] trees[i],
            leaves,
            root,
            ahead,
            left,
            right,
            deepen,
            branch,
            leaf,
        )
}

/// What the first `k` trees are drawn as, one behind another.
pub open spec fn forest_drawn<
    T,
    V,
    O: Fn(u64) -> T,
    A: Fn(T) -> T,
    L: Fn(T) -> T,
    R: Fn(T) -> T,
    D: Fn(T) -> T,
    B: Fn(Turtle<T>, T) -> Option<[V; 8]>,
    F: Fn(T) -> [V; 5],
>(
    trees: Seq<Tree>,
    leaves: u32,
    root: O,
    ahead: A,
    left: L,
    right: R,
    deepen: D,
    branch: B,
    leaf: F,
    k: int,
) -> (Seq<V>, Seq<u32>)
    decreases k,
{
    if k <= 0 {
        (Seq::empty(), Seq::empty())
    } else {
        let (vertices, indices) = forest_drawn(
            trees,
            leaves,
            root,
            ahead,
            left,
            right,
            deepen,
            branch,
            leaf,
            k - 1,
        );
        let own = tree_drawn(
            trees[k - 1],
            leaves,
            root,
            ahead,
            left,
            right,
            deepen,
            branch,
            leaf,
        );
        (vertices + own.0, indices + shifted(own.1, vertices.len() as int))
    }
}

/// The segments of the first `k` trees.
pub open spec fn segments_of(trees: Seq<Tree>, k: int) -> int
    decreases k,
{
    if k <= 0 {
        0
    } else {
        segments_of(trees, k - 1) + trees[k - 1].segments
    }
}

/// The forest.
pub struct Forest<V> {
    pub trees: Vec<Tree>,
    pub seed: u64,
    pub seeded: bool,
    /// The trees' triangles, one tree behind another.
    pub mesh: Mesh<V>,
    /// Goes up with every change of the triangles.
    pub version: u64,
    pub total_segments: u64,
    pub applied_struct: Option<StructSig>,
    pub applied_geo: Option<GeoSig>,
    pub applied_count: usize,
    pub last_build: u64,
}

/// The seed of the tree with number `i` in a forest.
pub open spec fn tree_seed(seed: u64, i: int) -> u64 {
    seed ^ mixed((i + 1) as u64)
}

impl<V: Copy> Forest<V> {
    /// Every tree has the seed of its number and keeps to its share, and the
    /// triangles are well-formed.
    pub open spec fn wf(&self) -> bool {
        &&& self.trees.len() <= MAX_TREES
        &&& forall|i: int|
            0 <= i < self.trees.len() ==> (#[trigger] self.trees[i]).wf(share(i + 1))
                && self.trees[i].seed == tree_seed(self.seed, i)
        &&& self.mesh.wf()
    }

    /// The trees that had grown for what is asked stay as they were.
    pub open spec fn keeps(&self, was: Seq<Tree>, ssig: StructSig) -> bool {
        forall|i: int|
            0 <= i < self.trees.len() && i < was.len() && grown_same(was[i].token_sig, ssig)
                ==> #[trigger] self.trees[i] == was[i]
    }

    /// All other trees have grown anew, each within its share.
    pub open spec fn has_regrown(&self, was: Seq<Tree>, ssig: StructSig, probs: Probs) -> bool {
        let each = share(self.trees.len() as int);
        forall|i: int|
            0 <= i < self.trees.len() && !(i < was.len() && grown_same(was[i].token_sig, ssig)) ==> {
                &&& (#[trigger] self.trees[i]).token_sig == Some(ssig)
                &&& self.trees[i].grown_for(probs, capped_growth(ssig.growth), each as u64)
                &&& self.trees[i].segments <= each
            }
    }

    /// Every tree has grown for what is asked.
    pub open spec fn is_grown_for(&self, ssig: StructSig) -> bool {
        forall|i: int|
            0 <= i < self.trees.len() ==> grown_same((#[trigger] self.trees[i]).token_sig, ssig)
    }

    /// The triangles are those of the trees, one tree behind another.
    pub open spec fn is_drawn<
        T,
        O: Fn(u64) -> T,
        A: Fn(T) -> T,
        L: Fn(T) -> T,
        R: Fn(T) -> T,
        D: Fn(T) -> T,
        B: Fn(Turtle<T>, T) -> Option<[V; 8]>,
        F: Fn(T) -> [V; 5],
    >(
        &self,
        leaves: u32,
        root: O,
        ahead: A,
        left: L,
        right: R,
        deepen: D,
        branch: B,
        leaf: F,
    ) -> bool {
        let all = forest_drawn(
            self.trees@,
            leaves,
            root,
            ahead,
            left,
            right,
            deepen,
            branch,
            leaf,
            self.trees.len() as int,
        );
        self.mesh.vertices@ == all.0 && self.mesh.indices@ == all.1
    }

    /// A forest that has not been seeded.
    pub fn new() -> (forest: Self)
        ensures
            forest.wf(),
            forest.trees.len() == 0,
            !forest.seeded,
            forest.mesh.vertices.len() == 0,
            forest.version == 0,
            forest.total_segments == 0,
            forest.applied_struct is None,
            forest.applied_geo is None,
            forest.applied_count == 0,
            forest.last_build == 0,
    {
        Forest {
            trees: Vec::new(),
            seed: 0,
            seeded: false,
            mesh: Mesh::new(),
            version: 0,
            total_segments: 0,
            applied_struct: None,
            applied_geo: None,
            applied_count: 0,
            last_build: 0,
        }
    }

    /// How many trees there are.
    pub fn tree_count(&self) -> (n: usize)
        ensures
            n == self.trees.len(),
    {
        self.trees.len()
    }

    /// Start over with a seed: the trees go, and the next update grows new
    /// ones. The triangles stay until then.
    pub fn reseed_with(&mut self, seed: u64)
        requires
            old(self).wf(),
        ensures
            final(self).wf(),
            final(self).seed == seed,
            final(self).seeded,
            final(self).trees.len() == 0,
            final(self).applied_struct is None,
            final(self).applied_geo is None,
            final(self).applied_count == old(self).applied_count,
            final(self).mesh == old(self).mesh,
            final(self).version == old(self).version,
            final(self).total_segments == old(self).total_segments,
            final(self).last_build == old(self).last_build,
    {
        self.seed = seed;
        self.seeded = true;
        self.trees.clear();
        self.applied_struct = None;
        self.applied_geo = None;
    }

    /// Start over with a random seed.
    pub fn reseed(&mut self)
        requires
            old(self).wf(),
        ensures
            final(self).wf(),
            final(self).seeded,
            final(self).trees.len() == 0,
            final(self).applied_struct is None,
            final(self).applied_geo is None,
            final(self).applied_count == old(self).applied_count,
            final(self).mesh == old(self).mesh,
            final(self).version == old(self).version,
            final(self).total_segments == old(self).total_segments,
            final(self).last_build == old(self).last_build,
    {
        let seed: u64 = any_number();
        self.reseed_with(seed);
    }

    /// Bring the trees to `n`: those past it go, those missing are planted.
    fn resize(&mut self, n: usize)
        requires
            old(self).wf(),
            n <= MAX_TREES,
        ensures
            final(self).wf(),
            final(self).trees.len() == n,
            forall|i: int|
                0 <= i < n && i < old(self).trees.len() ==> #[trigger] final(self).trees[i]
                    == old(self).trees[i],
            forall|i: int|
                old(self).trees.len() <= i < n ==> (#[trigger] final(self).trees[i]).token_sig
                    is None,
            final(self).seed == old(self).seed,
            final(self).seeded == old(self).seeded,
            final(self).mesh == old(self).mesh,
            final(self).version == old(self).version,
            final(self).last_build == old(self).last_build,
    {
        while self.trees.len() < n
            invariant
                self.wf(),
                n <= MAX_TREES,
                self.trees.len() >= old(self).trees.len(),
                self.trees.len() <= n || self.trees.len() == old(self).trees.len(),
                forall|i: int|
                    0 <= i < old(self).trees.len() ==> #[trigger] self.trees[i] == old(
                        self,
                    ).trees[i],
                forall|i: int|
                    old(self).trees.len() <= i < self.trees.len() ==> (
                    #[trigger] self.trees[i]).token_sig is None,
                self.seed == old(self).seed,
                self.seeded == old(self).seeded,
                self.mesh == old(self).mesh,
                self.version == old(self).version,
                self.last_build == old(self).last_build,
            decreases n - self.trees.len(),
        {
            let i: u64 = self.trees.len() as u64;
            let seed: u64 = self.seed ^ splitmix(i + 1);
            proof {
                lemma_share_falls(i + 1, i + 1);
            }
            let ghost before = self.trees@;
            self.trees.push(Tree::new(seed));
            proof {
                assert forall|j: int| 0 <= j < self.trees.len() implies (
                #[trigger] self.trees[j]).wf(share(j + 1)) && self.trees[j].seed == tree_seed(
                    self.seed,
                    j,
                ) by {
                    if j < before.len() {
                        assert(before[j].wf(share(j + 1)));
                    }
                }
            }
        }
        let ghost all = self.trees@;
        self.trees.truncate(n);
        proof {
            assert forall|i: int| 0 <= i < n implies #[trigger] self.trees[i] == all[i] by {}
        }
    }

    /// Grow and draw the forest with `n` trees. Only trees that were grown for
    /// another signature are grown anew; the others keep their tokens.
    pub fn rebuild<
        T: Copy,
        O: Fn(u64) -> T,
        A: Fn(T) -> T,
        L: Fn(T) -> T,
        R: Fn(T) -> T,
        D: Fn(T) -> T,
        B: Fn(Turtle<T>, T) -> Option<[V; 8]>,
        F: Fn(T) -> [V; 5],
    >(
        &mut self,
        n: usize,
        ssig: StructSig,
        gsig: GeoSig,
        probs: Probs,
        leaves: u32,
        root: &O,
        ahead: &A,
        left: &L,
        right: &R,
        deepen: &D,
        branch: &B,
        leaf: &F,
    )
        requires
            old(self).wf(),
            1 <= n <= MAX_TREES,
            single_valued1(*root),
            single_valued1(*ahead),
            single_valued1(*left),
            single_valued1(*right),
            single_valued1(*deepen),
            single_valued2(*branch),
            single_valued1(*leaf),
            forall|s: u64| root.requires((s,)),
            forall|t: T| ahead.requires((t,)),
            forall|t: T| left.requires((t,)),
            forall|t: T| right.requires((t,)),
            forall|t: T| deepen.requires((t,)),
            forall|a: Turtle<T>, b: T| branch.requires((a, b)),
            forall|a: T| leaf.requires((a,)),
        ensures
            final(self).wf(),
            final(self).trees.len() == n,
            final(self).keeps(old(self).trees@, ssig),
            final(self).has_regrown(old(self).trees@, ssig, probs),
            ssig.is_measured() ==> final(self).is_grown_for(ssig),
            final(self).is_drawn(
                leaves,
                *root,
                *ahead,
                *left,
                *right,
                *deepen,
                *branch,
                *leaf,
            ),
            forest_made(
                final(self).trees@,
                leaves,
                *root,
                *ahead,
                *left,
                *right,
                *deepen,
                *branch,
                *leaf,
                n as int,
            ),
            final(self).total_segments == segments_of(final(self).trees@, n as int),
            (forall|i: int|
                0 <= i < n && i < old(self).trees.len() ==> !grown_same(
                    (#[trigger] old(self).trees[i]).token_sig,
                    ssig,
                )) ==> final(self).total_segments <= n * share(n as int),
            final(self).version == old(self).version.wrapping_add(1),
            final(self).applied_struct == Some(ssig),
            final(self).applied_geo == Some(gsig),
            final(self).applied_count == n,
            final(self).seed == old(self).seed,
            final(self).seeded == old(self).seeded,
            final(self).last_build == old(self).last_build,
    {
        self.resize(n);
        let ghost planted = self.trees@;
        let share_each: u64 = budget(n);
        let growth: u32 = if ssig.growth < MAX_GROWTH {
            ssig.growth
        } else {
            MAX_GROWTH
        };
        let mut i: usize = 0;
        let mut total: u64 = 0;
        while i < n
            invariant
                i <= n,
                1 <= n <= MAX_TREES,
                n == self.trees.len() == planted.len(),
                share_each == share(n as int),
                growth == capped_growth(ssig.growth),
                self.wf(),
                forall|j: int| i <= j < n ==> #[trigger] self.trees[j] == planted[j],
                forall|j: int|
                    0 <= j < i && grown_same(planted[j].token_sig, ssig) ==> #[trigger] self.trees[j]
                        == planted[j],
                forall|j: int|
                    0 <= j < i && !grown_same(planted[j].token_sig, ssig) ==> (
                    #[trigger] self.trees[j]).token_sig == Some(ssig) && self.trees[j].grown_for(
                        probs,
                        growth,
                        share_each,
                    ) && self.trees[j].segments <= share_each,
                total == segments_of(self.trees@, i as int),
                total <= shares(i as int),
                self.seed == old(self).seed,
                self.seeded == old(self).seeded,
                self.version == old(self).version,
                self.last_build == old(self).last_build,
            decreases n - i,
        {
            let ghost before = self.trees@;
            proof {
                lemma_share_falls(i + 1, n as int);
            }
            self.trees[i].regrow(ssig, &probs, growth, share_each);
            proof {
                assert forall|j: int| 0 <= j < n && j != i implies #[trigger] self.trees[j]
                    == before[j] by {}
                assert(self.trees[i as int].wf(share(i + 1)));
                lemma_segments_agree(self.trees@, before, i as int);
                lemma_shares_bound(i + 1);
            }
            total = total + self.trees[i].segments;
            i += 1;
        }
        self.total_segments = total;
        self.mesh.clear();
        let ghost grown = self.trees@;
        proof {
            if forall|j: int| 0 <= j < n ==> !grown_same((#[trigger] planted[j]).token_sig, ssig) {
                lemma_segments_capped(grown, n as int, share_each as int);
            }
            if forall|j: int|
                0 <= j < n && j < old(self).trees.len() ==> !grown_same(
                    (#[trigger] old(self).trees[j]).token_sig,
                    ssig,
                ) {
                assert forall|j: int| 0 <= j < n implies !grown_same(
                    (#[trigger] planted[j]).token_sig,
                    ssig,
                ) by {
                    if j < old(self).trees.len() {
                        assert(planted[j] == old(self).trees[j]);
                    }
                }
            }
        }
        let mut k: usize = 0;
        while k < n
            invariant
                k <= n,
                1 <= n <= MAX_TREES,
                n == self.trees.len(),
                self.trees@ == grown,
                self.wf(),
                single_valued1(*root),
                single_valued1(*ahead),
                single_valued1(*left),
                single_valued1(*right),
                single_valued1(*deepen),
                single_valued2(*branch),
                single_valued1(*leaf),
                forall|s: u64| root.requires((s,)),
                forall|t: T| ahead.requires((t,)),
                forall|t: T| left.requires((t,)),
                forall|t: T| right.requires((t,)),
                forall|t: T| deepen.requires((t,)),
                forall|a: Turtle<T>, b: T| branch.requires((a, b)),
                forall|a: T| leaf.requires((a,)),
                ({
                    let all = forest_drawn(
                        grown,
                        leaves,
                        *root,
                        *ahead,
                        *left,
                        *right,
                        *deepen,
                        *branch,
                        *leaf,
                        k as int,
                    );
                    self.mesh.vertices@ == all.0 && self.mesh.indices@ == all.1
                }),
                forest_made(
                    grown,
                    leaves,
                    *root,
                    *ahead,
                    *left,
                    *right,
                    *deepen,
                    *branch,
                    *leaf,
                    k as int,
                ),
                self.mesh.vertices.len() <= 13 * shares(k as int),
                self.total_segments == total,
                self.seed == old(self).seed,
                self.seeded == old(self).seeded,
                self.version == old(self).version,
                self.last_build == old(self).last_build,
            decreases n - k,
        {
            let seed: u64 = self.trees[k].seed;
            let start: T = root(seed);
            proof {
                lemma_answer1(*root, seed, start);
                lemma_shares_bound(k + 1);
                lemma_share_falls(k + 1, k + 1);
                assert(self.trees[k as int].wf(share(k + 1)));
                assert(vertex_bound(self.trees[k as int].tokens@) <= 13 * share(k + 1));
                lemma_shares_block(0, k as int);
            }
            let own: Mesh<V> = build_geometry(
                &self.trees[k].tokens,
                seed,
                leaves,
                start,
                ahead,
                left,
                right,
                deepen,
                branch,
                leaf,
            );
            self.mesh.append(&own);
            k += 1;
        }
        self.version = self.version.wrapping_add(1);
        self.applied_struct = Some(ssig);
        self.applied_geo = Some(gsig);
        self.applied_count = n;
    }
}

impl<V: Copy> Forest<V> {
    /// The forest stands as the settings ask.
    pub open spec fn up_to_date(&self, n: int, ssig: StructSig, gsig: GeoSig) -> bool {
        &&& self.applied_struct matches Some(own) && own.same(ssig)
        &&& self.applied_geo matches Some(own) && own.same(gsig)
        &&& self.applied_count == n
        &&& self.trees.len() > 0
    }

    /// A rebuild has to wait: a slider is held and the last one was just now.
    /// The first one never waits.
    pub open spec fn throttled(&self, now: u64, dragging: bool) -> bool {
        self.trees.len() > 0 && dragging && now - self.last_build < REGROW_THROTTLE
    }

    /// Bring the forest up to date, where it is not and does not have to wait.
    /// Returns whether it was rebuilt. A forest without a seed gets one first.
    pub fn update_forest<
        T: Copy,
        O: Fn(u64) -> T,
        A: Fn(T) -> T,
        L: Fn(T) -> T,
        R: Fn(T) -> T,
        D: Fn(T) -> T,
        B: Fn(Turtle<T>, T) -> Option<[V; 8]>,
        F: Fn(T) -> [V; 5],
    >(
        &mut self,
        count: usize,
        ssig: StructSig,
        gsig: GeoSig,
        probs: Probs,
        leaves: u32,
        now: u64,
        dragging: bool,
        root: &O,
        ahead: &A,
        left: &L,
        right: &R,
        deepen: &D,
        branch: &B,
        leaf: &F,
    ) -> (built: bool)
        requires
            old(self).wf(),
            count <= MAX_TREES,
            single_valued1(*root),
            single_valued1(*ahead),
            single_valued1(*left),
            single_valued1(*right),
            single_valued1(*deepen),
            single_valued2(*branch),
            single_valued1(*leaf),
            forall|s: u64| root.requires((s,)),
            forall|t: T| ahead.requires((t,)),
            forall|t: T| left.requires((t,)),
            forall|t: T| right.requires((t,)),
            forall|t: T| deepen.requires((t,)),
            forall|a: Turtle<T>, b: T| branch.requires((a, b)),
            forall|a: T| leaf.requires((a,)),
        ensures
            final(self).wf(),
            final(self).seeded,
            old(self).seeded ==> built == !(old(self).up_to_date(most(count as int, 1), ssig, gsig)
                || old(self).throttled(now, dragging)),
            !old(self).seeded ==> built,
            !built ==> *final(self) == *old(self),
            built ==> {
                let n = most(count as int, 1);
                &&& final(self).applied_struct == Some(ssig)
                &&& final(self).applied_geo == Some(gsig)
                &&& final(self).applied_count == n
                &&& final(self).trees.len() == n
                &&& final(self).is_drawn(
                    leaves,
                    *root,
                    *ahead,
                    *left,
                    *right,
                    *deepen,
                    *branch,
                    *leaf,
                )
                &&& forest_made(
                    final(self).trees@,
                    leaves,
                    *root,
                    *ahead,
                    *left,
                    *right,
                    *deepen,
                    *branch,
                    *leaf,
                    n,
                )
                &&& final(self).total_segments == segments_of(final(self).trees@, n)
                &&& final(self).version == old(self).version.wrapping_add(1)
                &&& final(self).last_build == now
            },
            built && old(self).seeded ==> final(self).seed == old(self).seed,
            built && old(self).seeded ==> final(self).keeps(old(self).trees@, ssig),
            built ==> final(self).has_regrown(
                if old(self).seeded {
                    old(self).trees@
                } else {
                    Seq::empty()
                },
                ssig,
                probs,
            ),
            built && (!old(self).seeded || old(self).trees.len() == 0)
                ==> final(self).total_segments <= most(count as int, 1) * share(
                most(count as int, 1),
            ),
            built && ssig.is_measured() ==> final(self).is_grown_for(ssig),
    {
        if !self.seeded {
            self.reseed();
        }
        let n: usize = if count < 1 {
            1
        } else {
            count
        };
        let same_struct: bool = match self.applied_struct {
            Some(own) => own.is_same(&ssig),
            None => false,
        };
        let same_geo: bool = match self.applied_geo {
            Some(own) => own.is_same(&gsig),
            None => false,
        };
        let planted: bool = self.trees.len() > 0;
        if same_struct && same_geo && self.applied_count == n && planted {
            return false;
        }
        let recent: bool = now < self.last_build || now - self.last_build < REGROW_THROTTLE;
        if planted && dragging && recent {
            return false;
        }
        self.rebuild(
            n,
            ssig,
            gsig,
            probs,
            leaves,
            root,
            ahead,
            left,
            right,
            deepen,
            branch,
            leaf,
        );
        self.last_build = now;
        true
    }

    /// Start over with a random seed where a restart was asked for: by the UI,
    /// or by the key while playing and not typing. The request is then
    /// answered.
    pub fn handle_restart(&mut self, state: AppState, key: bool, typing: bool, request: &mut bool)
        requires
            old(self).wf(),
        ensures
            final(self).wf(),
            !*final(request),
            restart_wanted(*old(request), state, key, typing) ==> {
                &&& final(self).seeded
                &&& final(self).trees.len() == 0
                &&& final(self).applied_struct is None
                &&& final(self).applied_geo is None
                &&& final(self).applied_count == old(self).applied_count
                &&& final(self).mesh == old(self).mesh
                &&& final(self).version == old(self).version
                &&& final(self).total_segments == old(self).total_segments
                &&& final(self).last_build == old(self).last_build
            },
            !restart_wanted(*old(request), state, key, typing) ==> *final(self) == *old(self),
    {
        let key_restart: bool = state == AppState::Playing && key && !typing;
        if *request || key_restart {
            *request = false;
            self.reseed();
        }
    }

    /// Drop the forest when another experiment has just become the current one.
    /// The seed stays.
    pub fn clear_when_inactive(&mut self, changed: bool, current: ExperimentId)
        requires
            old(self).wf(),
        ensures
            final(self).wf(),
            !(changed && current != ExperimentId::Forest) ==> *final(self) == *old(self),
            changed && current != ExperimentId::Forest ==> {
                &&& final(self).trees.len() == 0
                &&& final(self).mesh.vertices.len() == 0
                &&& final(self).mesh.indices.len() == 0
                &&& final(self).total_segments == 0
                &&& final(self).applied_struct is None
                &&& final(self).applied_geo is None
                &&& final(self).applied_count == 0
                &&& final(self).version == old(self).version.wrapping_add(1)
                &&& final(self).seed == old(self).seed
                &&& final(self).seeded == old(self).seeded
                &&& final(self).last_build == old(self).last_build
            },
    {
        if !crate::shell::clear_when_inactive(changed, current, ExperimentId::Forest) {
            return;
        }
        self.mesh.clear();
        self.trees.clear();
        self.total_segments = 0;
        self.applied_struct = None;
        self.applied_geo = None;
        self.applied_count = 0;
        self.version = self.version.wrapping_add(1);
    }
}

/// A restart was asked for.
pub open spec fn restart_wanted(requested: bool, state: AppState, key: bool, typing: bool) -> bool {
    requested || (state == AppState::Playing && key && !typing)
}

/// A forest that was just built stays as it is until its settings change: the
/// same numbers ask for nothing more, and any other setting does.
pub proof fn law_updates_settle<V: Copy>(
    forest: Forest<V>,
    n: int,
    ssig: StructSig,
    gsig: GeoSig,
    m: int,
    other: StructSig,
    another: GeoSig,
)
    requires
        forest.applied_struct == Some(ssig),
        forest.applied_geo == Some(gsig),
        forest.applied_count == n,
        forest.trees.len() > 0,
    ensures
        ssig.is_measured() && gsig.is_measured() ==> forest.up_to_date(n, ssig, gsig),
        m != n || !ssig.same(other) || !gsig.same(another) <==> !forest.up_to_date(
            m,
            other,
            another,
        ),
{
}

/// Which tree grows at a place of the forest depends on the forest's seed and
/// on that place, not on how many trees there are.
pub proof fn law_trees_keep_their_seeds<V: Copy>(few: Forest<V>, many: Forest<V>, i: int)
    requires
        few.wf(),
        many.wf(),
        few.seed == many.seed,
        0 <= i < few.trees.len(),
        few.trees.len() <= many.trees.len(),
    ensures
        few.trees[i].seed == many.trees[i].seed,
        few.trees[i].seed == tree_seed(few.seed, i),
{
}

proof fn lemma_drawn_prefix<
    T,
    V,
    O: Fn(u64) -> T,
    A: Fn(T) -> T,
    L: Fn(T) -> T,
    R: Fn(T) -> T,
    D: Fn(T) -> T,
    B: Fn(Turtle<T>, T) -> Option<[V; 8]>,
    F: Fn(T) -> [V; 5],
>(
    few: Seq<Tree>,
    many: Seq<Tree>,
    leaves: u32,
    root: O,
    ahead: A,
    left: L,
    right: R,
    deepen: D,
    branch: B,
    leaf: F,
    n: int,
    k: int,
)
    requires
        0 <= n <= k <= many.len(),
        n <= few.len(),
        forall|i: int| 0 <= i < n ==> #[trigger] few[i] == many[i],
    ensures
        ({
            let a = forest_drawn(few, leaves, root, ahead, left, right, deepen, branch, leaf, n);
            let b = forest_drawn(many, leaves, root, ahead, left, right, deepen, branch, leaf, k);
            &&& a.0.len() <= b.0.len()
            &&& a.1.len() <= b.1.len()
            &&& b.0.take(a.0.len() as int) == a.0
            &&& b.1.take(a.1.len() as int) == a.1
        }),
    decreases k,
{
    let a = forest_drawn(few, leaves, root, ahead, left, right, deepen, branch, leaf, n);
    let b = forest_drawn(many, leaves, root, ahead, left, right, deepen, branch, leaf, k);
    if n < k {
        lemma_drawn_prefix(
            few,
            many,
            leaves,
            root,
            ahead,
            left,
            right,
            deepen,
            branch,
            leaf,
            n,
            k - 1,
        );
        assert(b.0.take(a.0.len() as int) =~= a.0);
        assert(b.1.take(a.1.len() as int) =~= a.1);
    } else {
        if n > 0 {
            lemma_drawn_prefix(
                few,
                many,
                leaves,
                root,
                ahead,
                left,
                right,
                deepen,
                branch,
                leaf,
                n - 1,
                k - 1,
            );
            let c = forest_drawn(few, leaves, root, ahead, left, right, deepen, branch, leaf, n - 1);
            let d = forest_drawn(many, leaves, root, ahead, left, right, deepen, branch, leaf, k - 1);
            lemma_drawn_prefix(
                many,
                few,
                leaves,
                root,
                ahead,
                left,
                right,
                deepen,
                branch,
                leaf,
                n - 1,
                k - 1,
            );
            assert(c.0 =~= d.0);
            assert(c.1 =~= d.1);
        }
        assert(b.0.take(a.0.len() as int) =~= a.0);
        assert(b.1.take(a.1.len() as int) =~= a.1);
    }
}

/// Adding or removing trees leaves the others untouched: of two forests, the
/// second rebuilt from the first with the same settings and another number of
/// trees, the triangles of the smaller begin those of the larger. The same number
/// repeats them.
pub proof fn law_other_trees_stay<
    T,
    V: Copy,
    O: Fn(u64) -> T,
    A: Fn(T) -> T,
    L: Fn(T) -> T,
    R: Fn(T) -> T,
    D: Fn(T) -> T,
    B: Fn(Turtle<T>, T) -> Option<[V; 8]>,
    F: Fn(T) -> [V; 5],
>(
    before: Forest<V>,
    after: Forest<V>,
    ssig: StructSig,
    leaves: u32,
    root: O,
    ahead: A,
    left: L,
    right: R,
    deepen: D,
    branch: B,
    leaf: F,
)
    requires
        before.is_grown_for(ssig),
        before.is_drawn(leaves, root, ahead, left, right, deepen, branch, leaf),
        after.keeps(before.trees@, ssig),
        after.is_drawn(leaves, root, ahead, left, right, deepen, branch, leaf),
    ensures
        before.trees.len() <= after.trees.len() ==> before.mesh.begins(after.mesh),
        after.trees.len() <= before.trees.len() ==> after.mesh.begins(before.mesh),
        after.trees.len() == before.trees.len() ==> after.mesh.vertices@ == before.mesh.vertices@
            && after.mesh.indices@ == before.mesh.indices@,
{
    let (n, m) = (before.trees.len() as int, after.trees.len() as int);
    assert forall|i: int| 0 <= i < n && i < m implies #[trigger] after.trees[i]
        == before.trees[i] by {
        assert(grown_same(before.trees[i].token_sig, ssig));
    }
    let (a, b) = (before.trees@, after.trees@);
    if n <= m {
        assert forall|i: int| 0 <= i < n implies #[trigger] a[i] == b[i] by {
            assert(after.trees[i] == before.trees[i]);
        }
        lemma_drawn_prefix(a, b, leaves, root, ahead, left, right, deepen, branch, leaf, n, m);
    }
    if m <= n {
        assert forall|i: int| 0 <= i < m implies #[trigger] b[i] == a[i] by {
            assert(after.trees[i] == before.trees[i]);
        }
        lemma_drawn_prefix(b, a, leaves, root, ahead, left, right, deepen, branch, leaf, m, n);
    }
    if n == m {
        assert(after.mesh.vertices@ =~= before.mesh.vertices@);
        assert(after.mesh.indices@ =~= before.mesh.indices@);
    }
}

/// Two trees of the same seed that were grown alike are the same tree.
pub proof fn law_growing_is_deterministic(a: Tree, b: Tree, p: Probs, growth: u32, budget: u64)
    requires
        a.seed == b.seed,
        a.grown_for(p, growth, budget),
        b.grown_for(p, growth, budget),
    ensures
        a.tokens@ == b.tokens@,
        a.segments == b.segments,
{
}

/// The rounds that trees grow for a tuned growth.
pub open spec fn capped_growth(growth: u32) -> u32 {
    if growth < MAX_GROWTH {
        growth
    } else {
        MAX_GROWTH
    }
}

proof fn lemma_segments_capped(trees: Seq<Tree>, k: int, cap: int)
    requires
        0 <= k <= trees.len(),
        forall|i: int| 0 <= i < trees.len() ==> (#[trigger] trees[i]).segments <= cap,
    ensures
        segments_of(trees, k) <= k * cap,
    decreases k,
{
    if k > 0 {
        lemma_segments_capped(trees, k - 1, cap);
        assert(trees[k - 1].segments <= cap);
        assert(k * cap == (k - 1) * cap + cap) by (nonlinear_arith);
    } else {
        assert(k * cap == 0) by (nonlinear_arith)
            requires
                k == 0,
        ;
    }
}

/// A forest whose trees have all grown together holds no more segments than the
/// whole may have, up to as many trees as can have more than the least budget.
pub proof fn law_forest_is_capped(n: int)
    requires
        1 <= n <= 1953,
    ensures
        n * share(n) <= MAX_SEGMENTS,
{
    let q = MAX_SEGMENTS as int / n;
    vstd::arithmetic::div_mod::lemma_fundamental_div_mod(MAX_SEGMENTS as int, n);
    vstd::arithmetic::div_mod::lemma_div_is_ordered_by_denominator(MAX_SEGMENTS as int, n, 1953);
    assert(n * q <= MAX_SEGMENTS);
}

proof fn lemma_segments_agree(a: Seq<Tree>, b: Seq<Tree>, k: int)
    requires
        0 <= k <= a.len(),
        a.len() == b.len(),
        forall|j: int| 0 <= j < k ==> #[trigger] a[j] == b[j],
    ensures
        segments_of(a, k) == segments_of(b, k),
    decreases k,
{
    if k > 0 {
        lemma_segments_agree(a, b, k - 1);
    }
}

/// A tree in the forest looks as it does alone: behind the trees before it come
/// its own vertices, and its triangles name these, wherever they stand.
pub proof fn law_trees_look_as_alone<
    T,
    V,
    O: Fn(u64) -> T,
    A: Fn(T) -> T,
    L: Fn(T) -> T,
    R: Fn(T) -> T,
    D: Fn(T) -> T,
    B: Fn(Turtle<T>, T) -> Option<[V; 8]>,
    F: Fn(T) -> [V; 5],
>(
    trees: Seq<Tree>,
    leaves: u32,
    root: O,
    ahead: A,
    left: L,
    right: R,
    deepen: D,
    branch: B,
    leaf: F,
    k: int,
    q: int,
)
    requires
        0 <= k < trees.len(),
        forest_drawn(trees, leaves, root, ahead, left, right, deepen, branch, leaf, k + 1).0.len()
            <= u32::MAX,
        0 <= q < tree_drawn(trees[k], leaves, root, ahead, left, right, deepen, branch, leaf).1.len(),
        tree_drawn(trees[k], leaves, root, ahead, left, right, deepen, branch, leaf).1[q]
            < tree_drawn(trees[k], leaves, root, ahead, left, right, deepen, branch, leaf).0.len(),
    ensures
        ({
            let before = forest_drawn(
                trees,
                leaves,
                root,
                ahead,
                left,
                right,
                deepen,
                branch,
                leaf,
                k,
            );
            let after = forest_drawn(
                trees,
                leaves,
                root,
                ahead,
                left,
                right,
                deepen,
                branch,
                leaf,
                k + 1,
            );
            let own = tree_drawn(
                trees[k],
                leaves,
                root,
                ahead,
                left,
                right,
                deepen,
                branch,
                leaf,
            );
            &&& after.0.len() == before.0.len() + own.0.len()
            &&& after.1.len() == before.1.len() + own.1.len()
            &&& after.1[before.1.len() + q] == before.0.len() + own.1[q]
            &&& after.0[after.1[before.1.len() + q] as int] == own.0[own.1[q] as int]
        }),
{
}

/// The trees of a forest share its segments alike: one has all of them, more have
/// less each, and none has less than it takes to be seen.
pub proof fn law_trees_share_the_segments(n: int, m: int)
    requires
        1 <= n <= m,
    ensures
        share(1) == 2_000_000,
        share(n) >= 1024,
        share(m) <= share(n),
        n <= 1953 ==> share(n) * n <= 2_000_000 < (share(n) + 1) * n,
        n > 1953 ==> share(n) == 1024,
{
    let (a, b) = (2_000_000int / n, 2_000_000int / m);
    assert(b <= a) by (nonlinear_arith)
        requires
            a == 2_000_000int / n,
            b == 2_000_000int / m,
            1 <= n <= m,
    ;
    assert(a * n <= 2_000_000 < (a + 1) * n) by (nonlinear_arith)
        requires
            a == 2_000_000int / n,
            1 <= n,
    ;
    if n <= 1953 {
        assert(a >= 1024) by (nonlinear_arith)
            requires
                2_000_000 < (a + 1) * n,
                1 <= n <= 1953,
        ;
    } else {
        assert(a < 1024) by (nonlinear_arith)
            requires
                a * n <= 2_000_000,
                n >= 1954,
        ;
    }
}

/// A forest that stands is built at most fifteen times a second while a slider is
/// dragged; released, or not yet grown, it is built at once.
pub proof fn law_dragging_is_throttled<V: Copy>(forest: Forest<V>, now: u64, dragging: bool)
    ensures
        forest.throttled(now, dragging) ==> dragging && forest.trees.len() > 0 && (now
            - forest.last_build) * 15 <= 1_000_000_000,
        dragging && forest.trees.len() > 0 && (now - forest.last_build) * 15 < 1_000_000_000
            ==> forest.throttled(now, dragging),
{
}

/// The seeds of the trees come from the forest's: the same tree differs from one
/// forest to another just as the forests' seeds do.
pub proof fn law_tree_seeds_follow_the_forest(a: u64, b: u64, i: int)
    ensures
        tree_seed(a, i) ^ tree_seed(b, i) == a ^ b,
        tree_seed(0, i) == mixed((i + 1) as u64),
{
    let m = mixed((i + 1) as u64);
    assert((a ^ m) ^ (b ^ m) == a ^ b) by (bit_vector);
    assert(0u64 ^ m == m) by (bit_vector);
}

/// A restart comes from a request in any state, or from its key while the program
/// plays and nothing is being typed.
pub proof fn law_restarts_come_from_request_or_key(state: AppState)
    ensures
        restart_wanted(true, state, false, true),
        restart_wanted(false, state, true, false) <==> state == AppState::Playing,
        !restart_wanted(false, state, true, true),
        !restart_wanted(false, state, false, false),
{
}

/// A forest's segments are those of its trees together.
pub proof fn law_forests_count_all_segments(trees: Seq<Tree>, k: int)
    requires
        0 <= k < trees.len(),
    ensures
        segments_of(trees, 0) == 0,
        segments_of(trees, k + 1) == segments_of(trees, k) + trees[k].segments,
{
}

/// Growth is taken as it is asked for, up to sixty-four rounds.
pub proof fn law_growth_is_capped(growth: u32)
    ensures
        growth <= 64 ==> capped_growth(growth) == growth,
        growth >= 64 ==> capped_growth(growth) == 64,
{
}

} // verus!
