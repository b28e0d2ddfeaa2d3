//! Drawing a tree: a turtle walks its tokens and leaves marks.

use vstd::prelude::*;

use crate::forest::lsystem::{
    count_of, depth, is_nested, never_below, TOK_B, TOK_C, TOK_F, TOK_L, TOK_POP, TOK_PUSH, TOK_R,
    TOK_S,
};
use crate::oracle::{answer1, answered1, lemma_answer1, single_valued1};
use crate::rng::{mixed, rng_draw, rng_step, splitmix, Rng, DRAWS};

verus! {

/// Bits of the seed that the placement of a tree is drawn from.
pub const PLACE_SALT: u64 = 0x5EED_F04E_57AB_CDEF;

/// Bits of the seed that the wind phase of a tree comes from.
pub const PHASE_SALT: u64 = 0x117D_C0DE_57AB_CDEF;

/// The wind phase of a tree.
pub open spec fn phase_of(seed: u64) -> u8 {
    (mixed(seed ^ PHASE_SALT) >> 56u64) as u8
}

/// The wind phase of a tree, so that each sways on its own clock.
pub fn wind_phase(seed: u64) -> (phase: u8)
    ensures
        phase == phase_of(seed),
{
    (splitmix(seed ^ PHASE_SALT) >> 56u64) as u8
}

/// The hash of a twig's tip, as the number of a draw.
pub open spec fn tip_draw(seed: u64, tip: u64) -> u32 {
    (mixed(seed ^ mixed(tip.wrapping_mul(0x100_0001))) >> 40u64) as u32
}

/// The hash of a twig's tip, the same in every rebuild.
pub fn tip_hash(seed: u64, tip: u64) -> (k: u32)
    ensures
        k == tip_draw(seed, tip),
        k < DRAWS,
{
    let h: u64 = splitmix(seed ^ splitmix(tip.wrapping_mul(0x100_0001)));
    assert(h >> 40u64 < 16_777_216) by (bit_vector);
    (h >> 40u64) as u32
}

/// The two draws that place and scale a tree, from a generator of their own: a
/// tree does not move when it grows.
pub fn placement(seed: u64) -> (draws: (u32, u32))
    ensures
        ({
            let start = mixed(seed ^ PLACE_SALT) | 1;
            &&& draws.0 == rng_draw(rng_step(start))
            &&& draws.1 == rng_draw(rng_step(rng_step(start)))
        }),
        draws.0 < DRAWS,
        draws.1 < DRAWS,
{
    let mut rng: Rng = Rng::new(splitmix(seed ^ PLACE_SALT));
    let across: u32 = rng.draw();
    let scale: u32 = rng.draw();
    (across, scale)
}

/// The packed look of a vertex: the branch level in the low seven bits, the
/// leaf flag, then how solid it is, how it sways and the phase of its tree, a
/// byte each.
pub open spec fn packed(level: u8, leaf: bool, core: u8, sway: u8, phase: u8) -> u32 {
    let low = (if level < 0x7f {
        level as u32
    } else {
        0x7fu32
    }) | (if leaf {
        0x80u32
    } else {
        0u32
    });
    low | ((core as u32) << 8u32) | ((sway as u32) << 16u32) | ((phase as u32) << 24u32)
}

/// Pack the look of a vertex.
pub fn pack(level: u8, leaf: bool, core: u8, sway: u8, phase: u8) -> (word: u32)
    ensures
        word == packed(level, leaf, core, sway, phase),
{
    let depth: u32 = if level < 0x7f {
        level as u32
    } else {
        0x7f
    };
    let flag: u32 = if leaf {
        0x80
    } else {
        0
    };
    let low: u32 = depth | flag;
    low | ((core as u32) << 8u32) | ((sway as u32) << 16u32) | ((phase as u32) << 24u32)
}

/// What was packed can be unpacked: no part spills into another.
pub proof fn law_packed_parts_stay_apart(level: u8, leaf: bool, core: u8, sway: u8, phase: u8)
    ensures
        ({
            let word = packed(level, leaf, core, sway, phase);
            &&& word & 0x7f == (if level < 0x7f {
                level as u32
            } else {
                0x7f
            })
            &&& (word & 0x80 != 0) == leaf
            &&& (word >> 8u32) & 0xff == core as u32
            &&& (word >> 16u32) & 0xff == sway as u32
            &&& word >> 24u32 == phase as u32
        }),
{
    let d = if level < 0x7f {
        level as u32
    } else {
        0x7fu32
    };
    let f = if leaf {
        0x80u32
    } else {
        0u32
    };
    let (c, s, p) = (core as u32, sway as u32, phase as u32);
    let word = (d | f) | (c << 8u32) | (s << 16u32) | (p << 24u32);
    assert(word & 0x7f == d && word & 0x80 == f && (word >> 8u32) & 0xff == c && (word >> 16u32)
        & 0xff == s && word >> 24u32 == p) by (bit_vector)
        requires
            d <= 0x7f,
            f == 0x80 || f == 0,
            c <= 0xff,
            s <= 0xff,
            p <= 0xff,
            word == (d | f) | (c << 8u32) | (s << 16u32) | (p << 24u32),
    ;
}

/// A place on the turtle's way with the depth of its branch.
#[derive(Clone, Copy)]
pub struct Turtle<T> {
    pub at: T,
    pub level: u8,
}

/// What the turtle leaves behind.
#[derive(Clone, Copy)]
pub enum Mark<T> {
    /// A straight piece of branch, from its start to its end.
    Branch(Turtle<T>, T),
    /// A leaf.
    Leaf(T),
}

/// The turtle's walk so far.
pub struct Walk<T> {
    pub turtle: Turtle<T>,
    /// Where the branches that it is in began.
    pub stack: Seq<Turtle<T>>,
    /// Where the straight piece that it is on began.
    pub run: Option<Turtle<T>>,
    /// The tips it has come by.
    pub tips: int,
    pub marks: Seq<Mark<T>>,
}

/// The level of a branch that begins on a level.
pub open spec fn deeper(level: u8) -> u8 {
    if level < u8::MAX {
        (level + 1) as u8
    } else {
        level
    }
}

/// The walk with the straight piece that it is on ended.
pub open spec fn run_ended<T>(walk: Walk<T>) -> Walk<T> {
    match walk.run {
        Some(start) => Walk {
            run: None,
            marks: walk.marks.push(Mark::Branch(start, walk.turtle.at)),
            ..walk
        },
        None => walk,
    }
}

/// The walk after one more token. Leaves sprout at those tips whose hash is
/// below `leaves`.
pub open spec fn walked<T, A: Fn(T) -> T, L: Fn(T) -> T, R: Fn(T) -> T, D: Fn(T) -> T>(
    walk: Walk<T>,
    c: u8,
    seed: u64,
    leaves: u32,
    ahead: A,
    left: L,
    right: R,
    deepen: D,
) -> Walk<T> {
    if c == TOK_F {
        let run = match walk.run {
            Some(start) => Some(start),
            None => Some(walk.turtle),
        };
        Walk {
            run,
            turtle: Turtle { at: answer1(ahead, walk.turtle.at), level: walk.turtle.level },
            ..walk
        }
    } else {
        let walk = run_ended(walk);
        let here = walk.turtle;
        if c == TOK_L {
            Walk { turtle: Turtle { at: answer1(left, here.at), level: here.level }, ..walk }
        } else if c == TOK_R {
            Walk { turtle: Turtle { at: answer1(right, here.at), level: here.level }, ..walk }
        } else if c == TOK_PUSH {
            Walk {
                stack: walk.stack.push(here),
                turtle: Turtle { at: answer1(deepen, here.at), level: deeper(here.level) },
                ..walk
            }
        } else if c == TOK_POP {
            if walk.stack.len() > 0 {
                Walk { turtle: walk.stack.last(), stack: walk.stack.drop_last(), ..walk }
            } else {
                walk
            }
        } else if c == TOK_B {
            let tips = walk.tips + 1;
            if tip_draw(seed, tips as u64) < leaves {
                Walk { tips, marks: walk.marks.push(Mark::Leaf(here.at)), ..walk }
            } else {
                Walk { tips, ..walk }
            }
        } else {
            walk
        }
    }
}

/// The walk over the first `k` tokens.
pub open spec fn walk_over<T, A: Fn(T) -> T, L: Fn(T) -> T, R: Fn(T) -> T, D: Fn(T) -> T>(
    tokens: Seq<u8>,
    seed: u64,
    leaves: u32,
    root: T,
    ahead: A,
    left: L,
    right: R,
    deepen: D,
    k: int,
) -> Walk<T>
    decreases k,
{
    if k <= 0 {
        Walk {
            turtle: Turtle { at: root, level: 0 },
            stack: Seq::empty(),
            run: None,
            tips: 0,
            marks: Seq::empty(),
        }
    } else {
        walked(
            walk_over(tokens, seed, leaves, root, ahead, left, right, deepen, k - 1),
            tokens[k - 1],
            seed,
            leaves,
            ahead,
            left,
            right,
            deepen,
        )
    }
}

/// The step over a token is an answer that its kernel gave.
pub open spec fn step_made<T, A: Fn(T) -> T, L: Fn(T) -> T, R: Fn(T) -> T, D: Fn(T) -> T>(
    at: T,
    c: u8,
    ahead: A,
    left: L,
    right: R,
    deepen: D,
) -> bool {
    &&& c == TOK_F ==> answered1(ahead, at)
    &&& c == TOK_L ==> answered1(left, at)
    &&& c == TOK_R ==> answered1(right, at)
    &&& c == TOK_PUSH ==> answered1(deepen, at)
}

/// The steps over the first `k` tokens are answers that the kernels gave.
pub open spec fn walk_made<T, A: Fn(T) -> T, L: Fn(T) -> T, R: Fn(T) -> T, D: Fn(T) -> T>(
    tokens: Seq<u8>,
    seed: u64,
    leaves: u32,
    root: T,
    ahead: A,
    left: L,
    right: R,
    deepen: D,
    k: int,
) -> bool {
    forall|i: int|
        0 <= i < k ==> step_made(
            (#[trigger] walk_over(tokens, seed, leaves, root, ahead, left, right, deepen, i)).turtle.at,
            tokens[i],
            ahead,
            left,
            right,
            deepen,
        )
}

/// The marks that a tree's tokens give.
pub open spec fn marks_of<T, A: Fn(T) -> T, L: Fn(T) -> T, R: Fn(T) -> T, D: Fn(T) -> T>(
    tokens: Seq<u8>,
    seed: u64,
    leaves: u32,
    root: T,
    ahead: A,
    left: L,
    right: R,
    deepen: D,
) -> Seq<Mark<T>> {
    run_ended(
        walk_over(
            tokens,
            seed,
            leaves,
            root,
            ahead,
            left,
            right,
            deepen,
            tokens.len() as int,
        ),
    ).marks
}

/// Walk a tree's tokens. Straight runs of segments become one mark each.
pub fn walk<T: Copy, A: Fn(T) -> T, L: Fn(T) -> T, R: Fn(T) -> T, D: Fn(T) -> T>(
    tokens: &Vec<u8>,
    seed: u64,
    leaves: u32,
    root: T,
    ahead: &A,
    left: &L,
    right: &R,
    deepen: &D,
) -> (marks: Vec<Mark<T>>)
    requires
        single_valued1(*ahead),
        single_valued1(*left),
        single_valued1(*right),
        single_valued1(*deepen),
        forall|t: T| ahead.requires((t,)),
        forall|t: T| left.requires((t,)),
        forall|t: T| right.requires((t,)),
        forall|t: T| deepen.requires((t,)),
    ensures
        marks@ == marks_of(tokens@, seed, leaves, root, *ahead, *left, *right, *deepen),
        walk_made(
            tokens@,
            seed,
            leaves,
            root,
            *ahead,
            *left,
            *right,
            *deepen,
            tokens.len() as int,
        ),
{
    let mut marks: Vec<Mark<T>> = Vec::new();
    let mut stack: Vec<Turtle<T>> = Vec::new();
    let mut turtle: Turtle<T> = Turtle { at: root, level: 0 };
    let mut run: Option<Turtle<T>> = None;
    let mut tips: u64 = 0;
    let mut i: usize = 0;
    while i < tokens.len()
        invariant
            i <= tokens.len(),
            tips <= i,
            single_valued1(*ahead),
            single_valued1(*left),
            single_valued1(*right),
            single_valued1(*deepen),
            forall|t: T| ahead.requires((t,)),
            forall|t: T| left.requires((t,)),
            forall|t: T| right.requires((t,)),
            forall|t: T| deepen.requires((t,)),
            ({
                let w = walk_over(
                    tokens@,
                    seed,
                    leaves,
                    root,
                    *ahead,
                    *left,
                    *right,
                    *deepen,
                    i as int,
                );
                &&& w.turtle == turtle
                &&& w.stack == stack@
                &&& w.run == run
                &&& w.tips == tips
                &&& w.marks == marks@
            }),
            walk_made(
                tokens@,
                seed,
                leaves,
                root,
                *ahead,
                *left,
                *right,
                *deepen,
                i as int,
            ),
        decreases tokens.len() - i,
    {
        let c: u8 = tokens[i];
        let ghost before = walk_over(
            tokens@,
            seed,
            leaves,
            root,
            *ahead,
            *left,
            *right,
            *deepen,
            i as int,
        );
        if c == TOK_F {
            if run.is_none() {
                run = Some(turtle);
            }
            let at: T = ahead(turtle.at);
            proof {
                lemma_answer1(*ahead, turtle.at, at);
            }
            turtle = Turtle { at, level: turtle.level };
        } else {
            if let Some(start) = run {
                marks.push(Mark::Branch(start, turtle.at));
                run = None;
            }
            if c == TOK_L {
                let at: T = left(turtle.at);
                proof {
                    lemma_answer1(*left, turtle.at, at);
                }
                turtle = Turtle { at, level: turtle.level };
            } else if c == TOK_R {
                let at: T = right(turtle.at);
                proof {
                    lemma_answer1(*right, turtle.at, at);
                }
                turtle = Turtle { at, level: turtle.level };
            } else if c == TOK_PUSH {
                stack.push(turtle);
                let at: T = deepen(turtle.at);
                proof {
                    lemma_answer1(*deepen, turtle.at, at);
                }
                let level: u8 = if turtle.level < u8::MAX {
                    turtle.level + 1
                } else {
                    turtle.level
                };
                turtle = Turtle { at, level };
            } else if c == TOK_POP {
                if let Some(start) = stack.pop() {
                    turtle = start;
                }
            } else if c == TOK_B {
                tips = tips + 1;
                if tip_hash(seed, tips) < leaves {
                    marks.push(Mark::Leaf(turtle.at));
                }
            }
        }
        assert(step_made(before.turtle.at, c, *ahead, *left, *right, *deepen));
        i += 1;
    }
    if let Some(start) = run {
        marks.push(Mark::Branch(start, turtle.at));
    }
    marks
}

/// How many marks are branches.
pub open spec fn branch_marks<T>(marks: Seq<Mark<T>>) -> int
    decreases marks.len(),
{
    if marks.len() == 0 {
        0
    } else {
        branch_marks(marks.drop_last()) + (if marks.last() is Branch {
            1int
        } else {
            0int
        })
    }
}

proof fn lemma_branch_marks_push<T>(marks: Seq<Mark<T>>, mark: Mark<T>)
    ensures
        branch_marks(marks.push(mark)) == branch_marks(marks) + (if mark is Branch {
            1int
        } else {
            0int
        }),
{
    assert(marks.push(mark).drop_last() =~= marks);
}

proof fn lemma_walk_counts<T, A: Fn(T) -> T, L: Fn(T) -> T, R: Fn(T) -> T, D: Fn(T) -> T>(
    tokens: Seq<u8>,
    seed: u64,
    leaves: u32,
    root: T,
    ahead: A,
    left: L,
    right: R,
    deepen: D,
    k: int,
)
    requires
        0 <= k <= tokens.len(),
    ensures
        ({
            let w = walk_over(tokens, seed, leaves, root, ahead, left, right, deepen, k);
            let open = if w.run is Some {
                1int
            } else {
                0int
            };
            &&& branch_marks(w.marks) + open <= count_of(tokens.take(k), TOK_F)
            &&& 0 <= w.marks.len() - branch_marks(w.marks) <= w.tips
            &&& w.tips == count_of(tokens.take(k), TOK_B)
        }),
    decreases k,
{
    if k > 0 {
        lemma_walk_counts(tokens, seed, leaves, root, ahead, left, right, deepen, k - 1);
        let w = walk_over(tokens, seed, leaves, root, ahead, left, right, deepen, k - 1);
        assert(tokens.take(k).drop_last() =~= tokens.take(k - 1));
        assert(tokens.take(k).last() == tokens[k - 1]);
        if let Some(start) = w.run {
            lemma_branch_marks_push(w.marks, Mark::Branch(start, w.turtle.at));
        }
        lemma_branch_marks_push(run_ended(w).marks, Mark::Leaf(w.turtle.at));
    } else {
        assert(tokens.take(0) =~= Seq::<u8>::empty());
    }
}

/// A tree leaves at most one mark for each segment and each bud: runs of
/// segments make fewer marks, never more.
pub proof fn law_marks_are_few<T, A: Fn(T) -> T, L: Fn(T) -> T, R: Fn(T) -> T, D: Fn(T) -> T>(
    tokens: Seq<u8>,
    seed: u64,
    leaves: u32,
    root: T,
    ahead: A,
    left: L,
    right: R,
    deepen: D,
)
    ensures
        ({
            let marks = marks_of(tokens, seed, leaves, root, ahead, left, right, deepen);
            &&& 0 <= branch_marks(marks) <= count_of(tokens, TOK_F)
            &&& 0 <= marks.len() - branch_marks(marks) <= count_of(tokens, TOK_B)
        }),
{
    let n = tokens.len() as int;
    lemma_walk_counts(tokens, seed, leaves, root, ahead, left, right, deepen, n);
    assert(tokens.take(n) =~= tokens);
    let w = walk_over(tokens, seed, leaves, root, ahead, left, right, deepen, n);
    if let Some(start) = w.run {
        lemma_branch_marks_push(w.marks, Mark::Branch(start, w.turtle.at));
    }
    lemma_branch_marks_not_negative(run_ended(w).marks);
}

/// The walk over the first tokens does not depend on those behind them.
proof fn lemma_walk_prefix<T, A: Fn(T) -> T, L: Fn(T) -> T, R: Fn(T) -> T, D: Fn(T) -> T>(
    tokens: Seq<u8>,
    seed: u64,
    leaves: u32,
    root: T,
    ahead: A,
    left: L,
    right: R,
    deepen: D,
    n: int,
    k: int,
)
    requires
        0 <= k <= n <= tokens.len(),
    ensures
        walk_over(tokens.take(n), seed, leaves, root, ahead, left, right, deepen, k)
            == walk_over(tokens, seed, leaves, root, ahead, left, right, deepen, k),
    decreases k,
{
    if k > 0 {
        lemma_walk_prefix(tokens, seed, leaves, root, ahead, left, right, deepen, n, k - 1);
    }
}

/// Inside a branch the turtle keeps what it will return to.
proof fn lemma_branch_keeps_stack<T, A: Fn(T) -> T, L: Fn(T) -> T, R: Fn(T) -> T, D: Fn(T) -> T>(
    tokens: Seq<u8>,
    seed: u64,
    leaves: u32,
    root: T,
    ahead: A,
    left: L,
    right: R,
    deepen: D,
    i: int,
    k: int,
)
    requires
        0 <= i <= k <= tokens.len(),
        never_below(tokens.subrange(i, k), 0),
    ensures
        ({
            let before = walk_over(tokens, seed, leaves, root, ahead, left, right, deepen, i).stack;
            let after = walk_over(tokens, seed, leaves, root, ahead, left, right, deepen, k).stack;
            &&& after.len() == before.len() + depth(tokens.subrange(i, k))
            &&& before.len() <= after.len()
            &&& after.take(before.len() as int) == before
        }),
    decreases k - i,
{
    let b = tokens.subrange(i, k);
    assert(b.take(b.len() as int) =~= b);
    assert(depth(b.take(b.len() as int)) >= 0);
    if i < k {
        let c = tokens.subrange(i, k - 1);
        assert forall|j: int| 0 <= j <= c.len() implies #[trigger] depth(c.take(j)) >= 0 by {
            assert(c.take(j) =~= b.take(j));
        }
        lemma_branch_keeps_stack(
            tokens,
            seed,
            leaves,
            root,
            ahead,
            left,
            right,
            deepen,
            i,
            k - 1,
        );
        assert(b.drop_last() =~= c);
        assert(b.last() == tokens[k - 1]);
    }
    let before = walk_over(tokens, seed, leaves, root, ahead, left, right, deepen, i).stack;
    let after = walk_over(tokens, seed, leaves, root, ahead, left, right, deepen, k).stack;
    assert(after.take(before.len() as int) =~= before);
}

/// A branch leaves no trace on the turtle: behind its end the turtle is where it
/// was before the branch began, on the same level and with the same branches
/// still open, however deep the branch lies and whatever is in it.
pub proof fn law_branches_return<T, A: Fn(T) -> T, L: Fn(T) -> T, R: Fn(T) -> T, D: Fn(T) -> T>(
    tokens: Seq<u8>,
    seed: u64,
    leaves: u32,
    root: T,
    ahead: A,
    left: L,
    right: R,
    deepen: D,
    i: int,
    k: int,
)
    requires
        0 <= i < k < tokens.len(),
        tokens[i] == TOK_PUSH,
        is_nested(tokens.subrange(i + 1, k)),
        tokens[k] == TOK_POP,
    ensures
        ({
            let before = walk_over(tokens, seed, leaves, root, ahead, left, right, deepen, i);
            let after = walk_over(tokens, seed, leaves, root, ahead, left, right, deepen, k + 1);
            &&& after.turtle == before.turtle
            &&& after.stack == before.stack
        }),
{
    lemma_branch_keeps_stack(
        tokens,
        seed,
        leaves,
        root,
        ahead,
        left,
        right,
        deepen,
        i + 1,
        k,
    );
    let before = walk_over(tokens, seed, leaves, root, ahead, left, right, deepen, i);
    let inside = walk_over(tokens, seed, leaves, root, ahead, left, right, deepen, i + 1);
    let last = walk_over(tokens, seed, leaves, root, ahead, left, right, deepen, k);
    let after = walk_over(tokens, seed, leaves, root, ahead, left, right, deepen, k + 1);
    assert(inside.stack == before.stack.push(before.turtle));
    assert(last.stack.take(inside.stack.len() as int) =~= last.stack);
    assert(after.stack =~= before.stack);
}

/// What each token does to the turtle: a segment takes it ahead, a turn turns it
/// to its side, the start of a branch takes it one level deeper; a bud, and any
/// other token, leaves it where it is.
pub proof fn law_tokens_steer<T, A: Fn(T) -> T, L: Fn(T) -> T, R: Fn(T) -> T, D: Fn(T) -> T>(
    tokens: Seq<u8>,
    seed: u64,
    leaves: u32,
    root: T,
    ahead: A,
    left: L,
    right: R,
    deepen: D,
    k: int,
)
    requires
        0 <= k < tokens.len(),
    ensures
        ({
            let before = walk_over(tokens, seed, leaves, root, ahead, left, right, deepen, k).turtle;
            let after = walk_over(tokens, seed, leaves, root, ahead, left, right, deepen, k + 1).turtle;
            let c = tokens[k];
            &&& c == TOK_F ==> after.at == answer1(ahead, before.at) && after.level == before.level
            &&& c == TOK_L ==> after.at == answer1(left, before.at) && after.level == before.level
            &&& c == TOK_R ==> after.at == answer1(right, before.at) && after.level == before.level
            &&& c == TOK_PUSH ==> after.at == answer1(deepen, before.at)
            &&& c == TOK_PUSH && before.level < 255 ==> after.level == before.level + 1
            &&& c == TOK_PUSH && before.level == 255 ==> after.level == 255
            &&& c == TOK_B || c == TOK_C || c == TOK_S || c > TOK_POP ==> after == before
            &&& c == TOK_POP && walk_over(
                tokens,
                seed,
                leaves,
                root,
                ahead,
                left,
                right,
                deepen,
                k,
            ).stack.len() == 0 ==> after == before
        }),
        walk_over(tokens, seed, leaves, root, ahead, left, right, deepen, 0).turtle == (Turtle {
            at: root,
            level: 0,
        }),
{
}

/// While the turtle is on a run of segments, it remembers where the run began and
/// leaves no mark.
proof fn lemma_runs<T, A: Fn(T) -> T, L: Fn(T) -> T, R: Fn(T) -> T, D: Fn(T) -> T>(
    tokens: Seq<u8>,
    seed: u64,
    leaves: u32,
    root: T,
    ahead: A,
    left: L,
    right: R,
    deepen: D,
    i: int,
    k: int,
)
    requires
        0 <= i <= k <= tokens.len(),
        forall|j: int| i <= j < k ==> #[trigger] tokens[j] == TOK_F,
    ensures
        ({
            let before = walk_over(tokens, seed, leaves, root, ahead, left, right, deepen, i);
            let after = walk_over(tokens, seed, leaves, root, ahead, left, right, deepen, k);
            &&& after.marks == before.marks
            &&& i < k && before.run is None ==> after.run == Some(before.turtle)
            &&& i < k && before.run is Some ==> after.run == before.run
            &&& after.tips == before.tips
        }),
    decreases k - i,
{
    if i < k {
        lemma_runs(tokens, seed, leaves, root, ahead, left, right, deepen, i, k - 1);
        assert(tokens[k - 1] == TOK_F);
    }
}

/// A straight run of segments leaves one mark, from where it began, on the level
/// of its branch, to where it ended: however many segments it has.
pub proof fn law_runs_become_one_mark<T, A: Fn(T) -> T, L: Fn(T) -> T, R: Fn(T) -> T, D: Fn(T) -> T>(
    tokens: Seq<u8>,
    seed: u64,
    leaves: u32,
    root: T,
    ahead: A,
    left: L,
    right: R,
    deepen: D,
    i: int,
    k: int,
)
    requires
        0 <= i < k <= tokens.len(),
        i > 0 ==> tokens[i - 1] != TOK_F,
        forall|j: int| i <= j < k ==> #[trigger] tokens[j] == TOK_F,
    ensures
        marks_of(tokens.take(k), seed, leaves, root, ahead, left, right, deepen)
            == marks_of(tokens.take(i), seed, leaves, root, ahead, left, right, deepen).push(
            Mark::Branch(
                walk_over(tokens, seed, leaves, root, ahead, left, right, deepen, i).turtle,
                walk_over(tokens, seed, leaves, root, ahead, left, right, deepen, k).turtle.at,
            ),
        ),
{
    lemma_walk_prefix(tokens, seed, leaves, root, ahead, left, right, deepen, i, i);
    lemma_walk_prefix(tokens, seed, leaves, root, ahead, left, right, deepen, k, k);
    lemma_runs(tokens, seed, leaves, root, ahead, left, right, deepen, i, k);
    let before = walk_over(tokens, seed, leaves, root, ahead, left, right, deepen, i);
    if i > 0 {
        let w = walk_over(tokens, seed, leaves, root, ahead, left, right, deepen, i - 1);
        assert(run_ended(w).run is None);
    }
    assert(before.run is None);
}

proof fn lemma_tips<T, A: Fn(T) -> T, L: Fn(T) -> T, R: Fn(T) -> T, D: Fn(T) -> T>(
    tokens: Seq<u8>,
    seed: u64,
    leaves: u32,
    root: T,
    ahead: A,
    left: L,
    right: R,
    deepen: D,
    k: int,
)
    requires
        0 <= k <= tokens.len(),
    ensures
        walk_over(tokens, seed, leaves, root, ahead, left, right, deepen, k).tips
            == count_of(tokens.take(k), TOK_B),
{
    lemma_walk_counts(tokens, seed, leaves, root, ahead, left, right, deepen, k);
}

/// A bud leaves a leaf where it stands if the hash of the tree and of the bud's
/// number, counted from one, is below `leaves`, and nothing else leaves a leaf; a
/// turn and the end of a branch leave no mark of their own.
pub proof fn law_buds_become_leaves<T, A: Fn(T) -> T, L: Fn(T) -> T, R: Fn(T) -> T, D: Fn(T) -> T>(
    tokens: Seq<u8>,
    seed: u64,
    leaves: u32,
    root: T,
    ahead: A,
    left: L,
    right: R,
    deepen: D,
    k: int,
)
    requires
        0 <= k < tokens.len(),
        tokens[k] != TOK_F,
        tokens.len() <= u64::MAX,
    ensures
        ({
            let before = marks_of(tokens.take(k), seed, leaves, root, ahead, left, right, deepen);
            let after = marks_of(tokens.take(k + 1), seed, leaves, root, ahead, left, right, deepen);
            let number = count_of(tokens.take(k), TOK_B) + 1;
            let sprouts = tokens[k] == TOK_B && tip_draw(seed, number as u64) < leaves;
            &&& sprouts ==> after == before.push(
                Mark::Leaf(
                    walk_over(tokens, seed, leaves, root, ahead, left, right, deepen, k).turtle.at,
                ),
            )
            &&& !sprouts ==> after == before
        }),
{
    lemma_walk_prefix(tokens, seed, leaves, root, ahead, left, right, deepen, k, k);
    lemma_walk_prefix(tokens, seed, leaves, root, ahead, left, right, deepen, k + 1, k + 1);
    lemma_tips(tokens, seed, leaves, root, ahead, left, right, deepen, k);
    let w = walk_over(tokens, seed, leaves, root, ahead, left, right, deepen, k);
    assert(run_ended(w).run is None);
    assert(run_ended(w).turtle == w.turtle);
}

proof fn lemma_branch_marks_not_negative<T>(marks: Seq<Mark<T>>)
    ensures
        0 <= branch_marks(marks) <= marks.len(),
    decreases marks.len(),
{
    if marks.len() > 0 {
        lemma_branch_marks_not_negative(marks.drop_last());
    }
}

} // verus!
