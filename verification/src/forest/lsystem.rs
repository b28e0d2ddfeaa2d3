//! Growing a tree: randomised rewriting of a string of tokens.

use vstd::prelude::*;

use crate::rng::{
    is_chance, is_threshold, law_draws_are_below_one, rng_draw, rng_step, threshold, Rng, DRAWS,
};

verus! {

/// The tokens: the seed of a tree, a segment, a bud, the turns left, right and
/// none, and the ends of a branch.
pub const TOK_S: u8 = 0;

pub const TOK_F: u8 = 1;

pub const TOK_B: u8 = 2;

pub const TOK_L: u8 = 3;

pub const TOK_R: u8 = 4;

pub const TOK_C: u8 = 5;

pub const TOK_PUSH: u8 = 6;

pub const TOK_POP: u8 = 7;

/// The chances of the rewriting, as the numbers of draws below which they come
/// true.
#[derive(Clone, Copy, Debug, PartialEq, Eq, Structural)]
pub struct Probs {
    /// A node rests.
    pub no_expand: u32,
    /// A segment lengthens.
    pub forward: u32,
    /// Whether buds branch at all.
    pub branches: bool,
    /// A bud takes the left shape.
    pub left: u32,
    /// A bud takes the left or the right shape.
    pub left_or_right: u32,
}

impl Probs {
    /// The chances, each given as whether it comes true for a draw.
    pub fn of<
        A: Fn(u32) -> bool,
        B: Fn(u32) -> bool,
        C: Fn(u32) -> bool,
        D: Fn(u32) -> bool,
    >(rests: A, lengthens: B, branches: bool, left: C, left_or_right: D) -> (p: Probs)
        requires
            is_chance(rests),
            is_chance(lengthens),
            is_chance(left),
            is_chance(left_or_right),
        ensures
            is_threshold(p.no_expand, rests),
            is_threshold(p.forward, lengthens),
            p.branches == branches,
            is_threshold(p.left, left),
            is_threshold(p.left_or_right, left_or_right),
    {
        Probs {
            no_expand: threshold(rests),
            forward: threshold(lengthens),
            branches,
            left: threshold(left),
            left_or_right: threshold(left_or_right),
        }
    }
}

/// The shape that leans left.
pub open spec fn left_shape() -> Seq<u8> {
    seq![
        TOK_PUSH,
        TOK_L,
        TOK_L,
        TOK_F,
        TOK_B,
        TOK_POP,
        TOK_PUSH,
        TOK_R,
        TOK_F,
        TOK_B,
        TOK_POP,
    ]
}

/// The shape that leans right.
pub open spec fn right_shape() -> Seq<u8> {
    seq![
        TOK_PUSH,
        TOK_L,
        TOK_F,
        TOK_B,
        TOK_POP,
        TOK_PUSH,
        TOK_R,
        TOK_R,
        TOK_F,
        TOK_B,
        TOK_POP,
    ]
}

/// The even shape of three branches.
pub open spec fn even_shape() -> Seq<u8> {
    seq![
        TOK_PUSH,
        TOK_L,
        TOK_L,
        TOK_F,
        TOK_B,
        TOK_POP,
        TOK_PUSH,
        TOK_C,
        TOK_F,
        TOK_B,
        TOK_POP,
        TOK_PUSH,
        TOK_R,
        TOK_R,
        TOK_F,
        TOK_B,
        TOK_POP,
    ]
}

/// What a bud that does not rest becomes, and the generator's state then.
/// Where no branching is set up it rests after all, without a draw.
pub open spec fn branched(state: u64, p: Probs) -> (Seq<u8>, u64) {
    if !p.branches {
        (seq![TOK_B], state)
    } else {
        let next = rng_step(state);
        let k = rng_draw(next);
        if k < p.left {
            (left_shape(), next)
        } else if k < p.left_or_right {
            (right_shape(), next)
        } else {
            (even_shape(), next)
        }
    }
}

/// What a token becomes, and the generator's state then. The seed takes no
/// draw; every other token first draws whether it rests.
pub open spec fn rewritten(c: u8, state: u64, p: Probs) -> (Seq<u8>, u64) {
    if c == TOK_S {
        (seq![TOK_F, TOK_B], state)
    } else {
        let next = rng_step(state);
        let rests = rng_draw(next) < p.no_expand;
        if c == TOK_F {
            if rests {
                (seq![TOK_F], next)
            } else {
                let again = rng_step(next);
                if rng_draw(again) < p.forward {
                    (seq![TOK_F, TOK_F], again)
                } else {
                    (seq![TOK_F], again)
                }
            }
        } else if c == TOK_B {
            if rests {
                (seq![TOK_B], next)
            } else {
                branched(next, p)
            }
        } else {
            (seq![c], next)
        }
    }
}

/// What the first `k` tokens become, and the generator's state then.
pub open spec fn rewriting(tokens: Seq<u8>, state: u64, p: Probs, k: int) -> (Seq<u8>, u64)
    decreases k,
{
    if k <= 0 {
        (Seq::empty(), state)
    } else {
        let (done, mid) = rewriting(tokens, state, p, k - 1);
        let (own, next) = rewritten(tokens[k - 1], mid, p);
        (done + own, next)
    }
}

/// How many tokens are `c`.
pub open spec fn count_of(tokens: Seq<u8>, c: u8) -> int
    decreases tokens.len(),
{
    if tokens.len() == 0 {
        0
    } else {
        count_of(tokens.drop_last(), c) + (if tokens.last() == c {
            1int
        } else {
            0int
        })
    }
}

proof fn lemma_count_concat(a: Seq<u8>, b: Seq<u8>, c: u8)
    ensures
        count_of(a + b, c) == count_of(a, c) + count_of(b, c),
    decreases b.len(),
{
    if b.len() == 0 {
        assert(a + b =~= a);
    } else {
        assert((a + b).drop_last() =~= a + b.drop_last());
        lemma_count_concat(a, b.drop_last(), c);
    }
}

proof fn lemma_count_push(a: Seq<u8>, x: u8, c: u8)
    ensures
        count_of(a.push(x), c) == count_of(a, c) + (if x == c {
            1int
        } else {
            0int
        }),
{
    assert(a.push(x).drop_last() =~= a);
}

proof fn lemma_count_bounds(a: Seq<u8>, c: u8)
    ensures
        0 <= count_of(a, c) <= a.len(),
    decreases a.len(),
{
    if a.len() > 0 {
        lemma_count_bounds(a.drop_last(), c);
    }
}

proof fn lemma_count_empty(c: u8)
    ensures
        count_of(Seq::<u8>::empty(), c) == 0,
{
}

/// Append tokens to a list.
fn extend(out: &mut Vec<u8>, tokens: &[u8])
    ensures
        final(out)@ == old(out)@ + tokens@,
{
    let mut i: usize = 0;
    while i < tokens.len()
        invariant
            i <= tokens.len(),
            out@ == old(out)@ + tokens@.take(i as int),
        decreases tokens.len() - i,
    {
        out.push(tokens[i]);
        i += 1;
        assert(out@ =~= old(out)@ + tokens@.take(i as int));
    }
    assert(tokens@.take(i as int) =~= tokens@);
}

/// Append what a bud that does not rest becomes, and return how many segments
/// that adds.
pub fn pick_branch(out: &mut Vec<u8>, rng: &mut Rng, p: &Probs) -> (segments: u64)
    ensures
        final(out)@ == old(out)@ + branched(old(rng).state, *p).0,
        final(rng).state == branched(old(rng).state, *p).1,
        segments == count_of(branched(old(rng).state, *p).0, TOK_F),
{
    proof {
        lemma_shapes();
    }
    if !p.branches {
        out.push(TOK_B);
        proof {
            assert(out@ =~= old(out)@ + seq![TOK_B]);
            assert(seq![TOK_B] =~= Seq::<u8>::empty().push(TOK_B));
            lemma_count_push(Seq::empty(), TOK_B, TOK_F);
        }
        return 0;
    }
    let k: u32 = rng.draw();
    if k < p.left {
        let shape: [u8; 11] = [
            TOK_PUSH,
            TOK_L,
            TOK_L,
            TOK_F,
            TOK_B,
            TOK_POP,
            TOK_PUSH,
            TOK_R,
            TOK_F,
            TOK_B,
            TOK_POP,
        ];
        extend(out, &shape);
        assert(shape@ =~= left_shape());
        2
    } else if k < p.left_or_right {
        let shape: [u8; 11] = [
            TOK_PUSH,
            TOK_L,
            TOK_F,
            TOK_B,
            TOK_POP,
            TOK_PUSH,
            TOK_R,
            TOK_R,
            TOK_F,
            TOK_B,
            TOK_POP,
        ];
        extend(out, &shape);
        assert(shape@ =~= right_shape());
        2
    } else {
        let shape: [u8; 17] = [
            TOK_PUSH,
            TOK_L,
            TOK_L,
            TOK_F,
            TOK_B,
            TOK_POP,
            TOK_PUSH,
            TOK_C,
            TOK_F,
            TOK_B,
            TOK_POP,
            TOK_PUSH,
            TOK_R,
            TOK_R,
            TOK_F,
            TOK_B,
            TOK_POP,
        ];
        extend(out, &shape);
        assert(shape@ =~= even_shape());
        3
    }
}

/// What the shapes hold.
proof fn lemma_shapes()
    ensures
        count_of(left_shape(), TOK_F) == 2,
        count_of(left_shape(), TOK_B) == 2,
        count_of(right_shape(), TOK_F) == 2,
        count_of(right_shape(), TOK_B) == 2,
        count_of(even_shape(), TOK_F) == 3,
        count_of(even_shape(), TOK_B) == 3,
{
    lemma_count_eleven(left_shape(), TOK_F);
    lemma_count_eleven(left_shape(), TOK_B);
    lemma_count_eleven(right_shape(), TOK_F);
    lemma_count_eleven(right_shape(), TOK_B);
    lemma_count_tail(even_shape(), TOK_F);
    lemma_count_tail(even_shape(), TOK_B);
}

spec fn one(x: u8, c: u8) -> int {
    if x == c {
        1
    } else {
        0
    }
}

proof fn lemma_count_eleven(s: Seq<u8>, c: u8)
    requires
        s.len() == 11,
    ensures
        count_of(s, c) == one(s[0], c) + one(s[1], c) + one(s[2], c) + one(s[3], c) + one(s[4], c)
            + one(s[5], c) + one(s[6], c) + one(s[7], c) + one(s[8], c) + one(s[9], c) + one(
            s[10],
            c,
        ),
{
    reveal_with_fuel(count_of, 12);
}

proof fn lemma_count_tail(s: Seq<u8>, c: u8)
    requires
        s.len() == 17,
    ensures
        count_of(s, c) == one(s[0], c) + one(s[1], c) + one(s[2], c) + one(s[3], c) + one(s[4], c)
            + one(s[5], c) + one(s[6], c) + one(s[7], c) + one(s[8], c) + one(s[9], c) + one(
            s[10],
            c,
        ) + one(s[11], c) + one(s[12], c) + one(s[13], c) + one(s[14], c) + one(s[15], c) + one(
            s[16],
            c,
        ),
{
    lemma_count_eleven(s.take(11), c);
    assert(s =~= s.take(11) + s.skip(11));
    lemma_count_concat(s.take(11), s.skip(11), c);
    lemma_count_six(s.skip(11), c);
}

proof fn lemma_count_six(s: Seq<u8>, c: u8)
    requires
        s.len() == 6,
    ensures
        count_of(s, c) == one(s[0], c) + one(s[1], c) + one(s[2], c) + one(s[3], c) + one(s[4], c)
            + one(s[5], c),
{
    reveal_with_fuel(count_of, 7);
}

proof fn lemma_small_counts(c: u8)
    ensures
        count_of(seq![TOK_F], TOK_F) == 1,
        count_of(seq![TOK_B], TOK_F) == 0,
        count_of(seq![TOK_F, TOK_F], TOK_F) == 2,
        count_of(seq![TOK_F, TOK_B], TOK_F) == 1,
        count_of(seq![c], TOK_F) == one(c, TOK_F),
{
    reveal_with_fuel(count_of, 3);
}

/// One round of rewriting: replace every token and return how many segments
/// there are then. `scratch` takes the tokens as they were.
pub fn expand_once(tokens: &mut Vec<u8>, scratch: &mut Vec<u8>, rng: &mut Rng, p: &Probs) -> (segments:
    u64)
    ensures
        final(tokens)@ == rewriting(
            old(tokens)@,
            old(rng).state,
            *p,
            old(tokens).len() as int,
        ).0,
        final(rng).state == rewriting(
            old(tokens)@,
            old(rng).state,
            *p,
            old(tokens).len() as int,
        ).1,
        segments == count_of(final(tokens)@, TOK_F),
        final(scratch)@ == old(tokens)@,
{
    scratch.clear();
    let mut segments: u64 = 0;
    let mut i: usize = 0;
    let ghost state = rng.state;
    while i < tokens.len()
        invariant
            i <= tokens.len(),
            tokens@ == old(tokens)@,
            state == old(rng).state,
            scratch@ == rewriting(tokens@, state, *p, i as int).0,
            rng.state == rewriting(tokens@, state, *p, i as int).1,
            segments == count_of(scratch@, TOK_F),
        decreases tokens.len() - i,
    {
        let c: u8 = tokens[i];
        let ghost done = scratch@;
        let ghost own = rewritten(c, rng.state, *p).0;
        proof {
            lemma_small_counts(c);
        }
        let mut added: u64 = 0;
        if c == TOK_S {
            scratch.push(TOK_F);
            scratch.push(TOK_B);
            added = 1;
        } else {
            let rests: bool = rng.draw() < p.no_expand;
            if c == TOK_F {
                scratch.push(TOK_F);
                added = 1;
                if !rests && rng.draw() < p.forward {
                    scratch.push(TOK_F);
                    added = 2;
                }
            } else if c == TOK_B {
                if rests {
                    scratch.push(TOK_B);
                } else {
                    added = pick_branch(scratch, rng, p);
                }
            } else {
                scratch.push(c);
            }
        }
        proof {
            assert(scratch@ =~= done + own);
            assert(added == count_of(own, TOK_F));
            lemma_count_concat(done, own, TOK_F);
            lemma_count_bounds(scratch@, TOK_F);
            assert(scratch.len() <= usize::MAX);
        }
        segments = segments + added;
        i += 1;
    }
    core::mem::swap(tokens, scratch);
    segments
}

/// A segment draws whether it rests. One that rests stays; one that does not
/// draws again, and becomes two exactly when the chance of lengthening comes
/// true for that draw.
pub proof fn law_segments_lengthen_by_chance<A: Fn(u32) -> bool, B: Fn(u32) -> bool>(
    tokens: Seq<u8>,
    state: u64,
    p: Probs,
    rests: A,
    lengthens: B,
    k: int,
)
    requires
        0 <= k < tokens.len(),
        tokens[k] == TOK_F,
        is_threshold(p.no_expand, rests),
        is_threshold(p.forward, lengthens),
    ensures
        ({
            let (before, mid) = rewriting(tokens, state, p, k);
            let (after, next) = rewriting(tokens, state, p, k + 1);
            let first = rng_draw(rng_step(mid));
            let second = rng_draw(rng_step(rng_step(mid)));
            &&& rests.ensures((first,), true) ==> after == before.push(TOK_F) && next == rng_step(
                mid,
            )
            &&& rests.ensures((first,), false) && lengthens.ensures((second,), true) ==> after
                == before.push(TOK_F).push(TOK_F) && next == rng_step(rng_step(mid))
            &&& rests.ensures((first,), false) && lengthens.ensures((second,), false) ==> after
                == before.push(TOK_F) && next == rng_step(rng_step(mid))
        }),
{
    let (before, mid) = rewriting(tokens, state, p, k);
    law_draws_are_below_one(rng_step(mid));
    law_draws_are_below_one(rng_step(rng_step(mid)));
    assert(before + seq![TOK_F] =~= before.push(TOK_F));
    assert(before + seq![TOK_F, TOK_F] =~= before.push(TOK_F).push(TOK_F));
}

/// A bud draws whether it rests. One that rests stays, as does every bud where
/// none branch; any other draws again, and leans left, leans right or is even as
/// the two chances have it.
pub proof fn law_buds_branch_by_chance<
    A: Fn(u32) -> bool,
    C: Fn(u32) -> bool,
    D: Fn(u32) -> bool,
>(
    tokens: Seq<u8>,
    state: u64,
    p: Probs,
    rests: A,
    left: C,
    left_or_right: D,
    k: int,
)
    requires
        0 <= k < tokens.len(),
        tokens[k] == TOK_B,
        is_threshold(p.no_expand, rests),
        is_threshold(p.left, left),
        is_threshold(p.left_or_right, left_or_right),
    ensures
        ({
            let (before, mid) = rewriting(tokens, state, p, k);
            let (after, next) = rewriting(tokens, state, p, k + 1);
            let first = rng_draw(rng_step(mid));
            let second = rng_draw(rng_step(rng_step(mid)));
            let branches = rests.ensures((first,), false) && p.branches;
            &&& rests.ensures((first,), true) || (rests.ensures((first,), false) && !p.branches)
                ==> after == before.push(TOK_B) && next == rng_step(mid)
            &&& branches && left.ensures((second,), true) ==> after == before + branch(
                seq![TOK_L, TOK_L],
            ) + branch(seq![TOK_R])
            &&& branches && left.ensures((second,), false) && left_or_right.ensures(
                (second,),
                true,
            ) ==> after == before + branch(seq![TOK_L]) + branch(seq![TOK_R, TOK_R])
            &&& branches && left.ensures((second,), false) && left_or_right.ensures(
                (second,),
                false,
            ) ==> after == before + branch(seq![TOK_L, TOK_L]) + branch(seq![TOK_C]) + branch(
                seq![TOK_R, TOK_R],
            )
            &&& branches ==> next == rng_step(rng_step(mid))
        }),
{
    let (before, mid) = rewriting(tokens, state, p, k);
    law_draws_are_below_one(rng_step(mid));
    law_draws_are_below_one(rng_step(rng_step(mid)));
    assert(before + seq![TOK_B] =~= before.push(TOK_B));
    assert(before + left_shape() =~= before + branch(seq![TOK_L, TOK_L]) + branch(seq![TOK_R]));
    assert(before + right_shape() =~= before + branch(seq![TOK_L]) + branch(seq![TOK_R, TOK_R]));
    assert(before + even_shape() =~= before + branch(seq![TOK_L, TOK_L]) + branch(seq![TOK_C])
        + branch(seq![TOK_R, TOK_R]));
}

/// A branch of one segment and one bud, behind its turns.
pub open spec fn branch(turns: Seq<u8>) -> Seq<u8> {
    seq![TOK_PUSH] + turns + seq![TOK_F, TOK_B, TOK_POP]
}

/// The seed sprouts without a draw, and a token that is neither seed, segment nor
/// bud stays, with one draw taken: what the other tokens become is then the same
/// wherever it stands.
pub proof fn law_seeds_sprout_and_turns_stay(tokens: Seq<u8>, state: u64, p: Probs, k: int)
    requires
        0 <= k < tokens.len(),
    ensures
        ({
            let (before, mid) = rewriting(tokens, state, p, k);
            let (after, next) = rewriting(tokens, state, p, k + 1);
            let c = tokens[k];
            &&& c == TOK_S ==> after == before.push(TOK_F).push(TOK_B) && next == mid
            &&& c != TOK_S && c != TOK_F && c != TOK_B ==> after == before.push(c) && next
                == rng_step(mid)
        }),
{
    let (before, mid) = rewriting(tokens, state, p, k);
    assert(before + seq![TOK_F, TOK_B] =~= before.push(TOK_F).push(TOK_B));
    assert(before + seq![tokens[k]] =~= before.push(tokens[k]));
}

/// Where every node rests, a round leaves all as it is.
pub proof fn law_resting_trees_stay(tokens: Seq<u8>, state: u64, p: Probs, k: int)
    requires
        0 <= k <= tokens.len(),
        p.no_expand == DRAWS,
        forall|i: int| 0 <= i < tokens.len() ==> #[trigger] tokens[i] != TOK_S,
    ensures
        rewriting(tokens, state, p, k).0 == tokens.take(k),
    decreases k,
{
    if k > 0 {
        law_resting_trees_stay(tokens, state, p, k - 1);
        let mid = rewriting(tokens, state, p, k - 1).1;
        law_draws_are_below_one(rng_step(mid));
        assert(tokens[k - 1] != TOK_S);
    }
    assert(rewriting(tokens, state, p, k).0 =~= tokens.take(k));
}

/// Where nothing lengthens, a round keeps every segment single: tokens without a
/// bud stay as they are.
pub proof fn law_segments_that_never_lengthen_stay(tokens: Seq<u8>, state: u64, p: Probs, k: int)
    requires
        0 <= k <= tokens.len(),
        p.forward == 0,
        forall|i: int|
            0 <= i < tokens.len() ==> #[trigger] tokens[i] != TOK_S && tokens[i] != TOK_B,
    ensures
        rewriting(tokens, state, p, k).0 == tokens.take(k),
    decreases k,
{
    if k > 0 {
        law_segments_that_never_lengthen_stay(tokens, state, p, k - 1);
        assert(tokens[k - 1] != TOK_S && tokens[k - 1] != TOK_B);
    }
    assert(rewriting(tokens, state, p, k).0 =~= tokens.take(k));
}

/// Where no node rests and every segment lengthens, a round doubles every
/// segment: tokens without a bud get as many more as there are segments.
pub proof fn law_segments_that_always_lengthen_double(
    tokens: Seq<u8>,
    state: u64,
    p: Probs,
    k: int,
)
    requires
        0 <= k <= tokens.len(),
        p.no_expand == 0,
        p.forward == DRAWS,
        forall|i: int|
            0 <= i < tokens.len() ==> #[trigger] tokens[i] != TOK_S && tokens[i] != TOK_B,
    ensures
        ({
            let out = rewriting(tokens, state, p, k).0;
            let n = count_of(tokens.take(k), TOK_F);
            &&& count_of(out, TOK_F) == 2 * n
            &&& out.len() == k + n
        }),
    decreases k,
{
    if k > 0 {
        law_segments_that_always_lengthen_double(tokens, state, p, k - 1);
        let (done, mid) = rewriting(tokens, state, p, k - 1);
        let c = tokens[k - 1];
        let own = rewritten(c, mid, p).0;
        law_draws_are_below_one(rng_step(mid));
        law_draws_are_below_one(rng_step(rng_step(mid)));
        assert(tokens.take(k).drop_last() =~= tokens.take(k - 1));
        assert(tokens.take(k).last() == c);
        lemma_count_concat(done, own, TOK_F);
        lemma_small_counts(c);
    } else {
        assert(tokens.take(0) =~= Seq::<u8>::empty());
    }
}

/// The tokens and the generator's state after `k` rounds from the seed.
pub open spec fn stage(state: u64, p: Probs, k: nat) -> (Seq<u8>, u64)
    decreases k,
{
    if k == 0 {
        (seq![TOK_S], state)
    } else {
        let (tokens, mid) = stage(state, p, (k - 1) as nat);
        rewriting(tokens, mid, p, tokens.len() as int)
    }
}

/// The segments after `k` rounds; none are counted before the first.
pub open spec fn stage_segments(state: u64, p: Probs, k: nat) -> int {
    if k == 0 {
        0
    } else {
        count_of(stage(state, p, k).0, TOK_F)
    }
}

/// How many rounds a tree grows: `growth`, unless it passes its budget earlier.
pub open spec fn rounds(state: u64, p: Probs, growth: nat, budget: u64) -> nat
    decreases growth,
{
    if growth == 0 {
        0
    } else {
        let before = rounds(state, p, (growth - 1) as nat, budget);
        if before < growth - 1 || (before > 0 && stage_segments(state, p, before) > budget) {
            before
        } else {
            growth
        }
    }
}

/// Grow a tree from its seed for `growth` rounds, stopping with the round that
/// passes the budget of segments. Returns the segments. What the round before
/// the last had grown is left in `scratch`.
pub fn expand(
    tokens: &mut Vec<u8>,
    scratch: &mut Vec<u8>,
    rng: &mut Rng,
    p: &Probs,
    growth: u32,
    budget: u64,
) -> (segments: u64)
    ensures
        final(tokens)@ == stage(
            old(rng).state,
            *p,
            rounds(old(rng).state, *p, growth as nat, budget),
        ).0,
        final(rng).state == stage(
            old(rng).state,
            *p,
            rounds(old(rng).state, *p, growth as nat, budget),
        ).1,
        segments == stage_segments(
            old(rng).state,
            *p,
            rounds(old(rng).state, *p, growth as nat, budget),
        ),
        rounds(old(rng).state, *p, growth as nat, budget) > 0 ==> final(scratch)@ == stage(
            old(rng).state,
            *p,
            (rounds(old(rng).state, *p, growth as nat, budget) - 1) as nat,
        ).0,
{
    let ghost state = rng.state;
    tokens.clear();
    tokens.push(TOK_S);
    assert(tokens@ =~= seq![TOK_S]);
    let mut segments: u64 = 0;
    let mut i: u32 = 0;
    while i < growth
        invariant
            i <= growth,
            tokens@ == stage(state, *p, i as nat).0,
            rng.state == stage(state, *p, i as nat).1,
            segments == stage_segments(state, *p, i as nat),
            rounds(state, *p, i as nat, budget) == i,
            i > 0 ==> segments <= budget,
            i > 0 ==> scratch@ == stage(state, *p, (i - 1) as nat).0,
            state == old(rng).state,
        decreases growth - i,
    {
        segments = expand_once(tokens, scratch, rng, p);
        i += 1;
        if segments > budget {
            proof {
                lemma_rounds_stop(state, *p, i as nat, growth as nat, budget);
            }
            return segments;
        }
    }
    segments
}

proof fn lemma_rounds_stop(state: u64, p: Probs, k: nat, growth: nat, budget: u64)
    requires
        0 < k <= growth,
        rounds(state, p, k, budget) == k,
        stage_segments(state, p, k) > budget,
    ensures
        rounds(state, p, growth, budget) == k,
    decreases growth,
{
    if k < growth {
        lemma_rounds_stop(state, p, k, (growth - 1) as nat, budget);
    }
}

/// How many rounds a tree grows within its budget: without the round that passes
/// it.
pub open spec fn rounds_within(state: u64, p: Probs, growth: nat, budget: u64) -> nat {
    let k = rounds(state, p, growth, budget);
    if k > 0 && stage_segments(state, p, k) > budget {
        (k - 1) as nat
    } else {
        k
    }
}

proof fn lemma_rounds_step(state: u64, p: Probs, growth: nat, budget: u64)
    ensures
        ({
            let shallow = rounds(state, p, growth, budget);
            let deep = rounds(state, p, growth + 1, budget);
            &&& deep == shallow || deep == shallow + 1
            &&& shallow <= growth
        }),
    decreases growth,
{
    if growth > 0 {
        lemma_rounds_step(state, p, (growth - 1) as nat, budget);
    }
}

/// Growing on keeps what has grown: a tree one round deeper has gone through
/// the same rounds, and is the shallower tree or its next stage.
pub proof fn law_growth_morphs_in_place(state: u64, p: Probs, growth: nat, budget: u64)
    ensures
        ({
            let shallow = rounds(state, p, growth, budget);
            let deep = rounds(state, p, growth + 1, budget);
            &&& deep == shallow || deep == shallow + 1
            &&& shallow <= growth
        }),
        ({
            let shallow = rounds_within(state, p, growth, budget);
            let deep = rounds_within(state, p, growth + 1, budget);
            &&& deep == shallow || deep == shallow + 1
            &&& shallow <= growth
        }),
{
    lemma_rounds_step(state, p, growth, budget);
}

proof fn lemma_rounds_before_last(state: u64, p: Probs, growth: nat, budget: u64)
    ensures
        ({
            let k = rounds(state, p, growth, budget);
            &&& k > 1 ==> stage_segments(state, p, (k - 1) as nat) <= budget
            &&& k < growth ==> k > 0 && stage_segments(state, p, k) > budget
        }),
    decreases growth,
{
    if growth > 0 {
        lemma_rounds_before_last(state, p, (growth - 1) as nat, budget);
        lemma_rounds_step(state, p, (growth - 1) as nat, budget);
    }
}

/// The budget caps a tree, which still grows as deep as its budget allows: it has
/// gone through all rounds, or one more would pass the budget.
pub proof fn law_budget_caps_segments(state: u64, p: Probs, growth: nat, budget: u64)
    ensures
        ({
            let k = rounds_within(state, p, growth, budget);
            &&& stage_segments(state, p, k) <= budget
            &&& k == growth || stage_segments(state, p, k + 1) > budget
        }),
{
    lemma_rounds_before_last(state, p, growth, budget);
    lemma_rounds_step(state, p, growth, budget);
}

/// How many tokens are segments.
pub fn count_segments(tokens: &Vec<u8>) -> (n: u64)
    ensures
        n == count_of(tokens@, TOK_F),
{
    let mut n: u64 = 0;
    let mut i: usize = 0;
    assert(tokens@.take(0) =~= Seq::<u8>::empty());
    while i < tokens.len()
        invariant
            i <= tokens.len(),
            n == count_of(tokens@.take(i as int), TOK_F),
            n <= i,
        decreases tokens.len() - i,
    {
        proof {
            assert(tokens@.take(i + 1).drop_last() =~= tokens@.take(i as int));
            assert(tokens@.take(i + 1).last() == tokens@[i as int]);
        }
        if tokens[i] == TOK_F {
            n += 1;
        }
        i += 1;
    }
    assert(tokens@.take(i as int) =~= tokens@);
    n
}

proof fn lemma_rewriting_len(tokens: Seq<u8>, state: u64, p: Probs, k: int)
    requires
        0 <= k <= tokens.len(),
    ensures
        rewriting(tokens, state, p, k).0.len() >= k,
    decreases k,
{
    if k > 0 {
        lemma_rewriting_len(tokens, state, p, k - 1);
    }
}

/// A tree never shrinks from one round to the next.
pub proof fn law_deeper_trees_are_no_shorter(state: u64, p: Probs, k: nat)
    ensures
        stage(state, p, k + 1).0.len() >= stage(state, p, k).0.len(),
{
    let (tokens, mid) = stage(state, p, k);
    lemma_rewriting_len(tokens, mid, p, tokens.len() as int);
}

/// What a round does to the numbers of segments, buds and other tokens.
proof fn lemma_rewriting_counts(tokens: Seq<u8>, state: u64, p: Probs, k: int)
    requires
        0 <= k <= tokens.len(),
        forall|i: int| 0 <= i < tokens.len() ==> #[trigger] tokens[i] != TOK_S,
    ensures
        ({
            let out = rewriting(tokens, state, p, k).0;
            let (f, b) = (count_of(tokens.take(k), TOK_F), count_of(tokens.take(k), TOK_B));
            let (f2, b2) = (count_of(out, TOK_F), count_of(out, TOK_B));
            &&& f <= f2 <= 2 * f + 3 * b
            &&& b <= b2
            &&& b2 - b <= f2 - f
            &&& out.len() - k <= 6 * (f2 - f)
            &&& forall|i: int| 0 <= i < out.len() ==> #[trigger] out[i] != TOK_S
        }),
    decreases k,
{
    if k > 0 {
        lemma_rewriting_counts(tokens, state, p, k - 1);
        let (done, mid) = rewriting(tokens, state, p, k - 1);
        let c = tokens[k - 1];
        let own = rewritten(c, mid, p).0;
        assert(tokens.take(k).drop_last() =~= tokens.take(k - 1));
        assert(tokens.take(k).last() == c);
        lemma_count_concat(done, own, TOK_F);
        lemma_count_concat(done, own, TOK_B);
        lemma_shapes();
        lemma_count_empty(TOK_F);
        lemma_count_empty(TOK_B);
        lemma_count_push(Seq::empty(), c, TOK_F);
        lemma_count_push(Seq::empty(), c, TOK_B);
        lemma_count_push(Seq::empty().push(TOK_F), TOK_F, TOK_F);
        lemma_count_push(Seq::empty().push(TOK_F), TOK_F, TOK_B);
        lemma_count_push(Seq::empty(), TOK_F, TOK_F);
        lemma_count_push(Seq::empty(), TOK_F, TOK_B);
        assert(seq![c] =~= Seq::<u8>::empty().push(c));
        assert(seq![TOK_F] =~= Seq::<u8>::empty().push(TOK_F));
        assert(seq![TOK_F, TOK_F] =~= Seq::<u8>::empty().push(TOK_F).push(TOK_F));
        let out = done + own;
        assert forall|i: int| 0 <= i < out.len() implies #[trigger] out[i] != TOK_S by {
            if i >= done.len() {
                assert(out[i] == own[i - done.len()]);
            } else {
                assert(done[i] != TOK_S);
            }
        }
    } else {
        assert(tokens.take(0) =~= Seq::<u8>::empty());
    }
}

/// A tree has no more buds than segments, no seed once it grows, and at most six
/// tokens for each segment.
pub open spec fn is_grown(tokens: Seq<u8>) -> bool {
    &&& count_of(tokens, TOK_B) <= count_of(tokens, TOK_F)
    &&& tokens.len() <= 6 * count_of(tokens, TOK_F)
    &&& forall|i: int| 0 <= i < tokens.len() ==> #[trigger] tokens[i] != TOK_S
}

/// Every stage but the seed is a grown tree, and one more round makes at most
/// five times as many segments of it.
pub proof fn law_stages_are_grown(state: u64, p: Probs, k: nat)
    requires
        k > 0,
    ensures
        is_grown(stage(state, p, k).0),
        stage_segments(state, p, k + 1) <= 5 * stage_segments(state, p, k),
        stage_segments(state, p, 1) == 1,
        stage_segments(state, p, k) >= 1,
    decreases k,
{
    let seed = seq![TOK_S];
    assert(stage(state, p, 1).0 =~= seq![TOK_F, TOK_B]) by {
        reveal_with_fuel(stage, 2);
        reveal_with_fuel(rewriting, 2);
    }
    assert(count_of(seq![TOK_F, TOK_B], TOK_F) == 1 && count_of(seq![TOK_F, TOK_B], TOK_B) == 1) by {
        reveal_with_fuel(count_of, 3);
    }
    if k > 1 {
        law_stages_are_grown(state, p, (k - 1) as nat);
        let (tokens, mid) = stage(state, p, (k - 1) as nat);
        lemma_rewriting_counts(tokens, mid, p, tokens.len() as int);
        assert(tokens.take(tokens.len() as int) =~= tokens);
    }
    let (tokens, mid) = stage(state, p, k);
    lemma_rewriting_counts(tokens, mid, p, tokens.len() as int);
    assert(tokens.take(tokens.len() as int) =~= tokens);
}

/// A tree starts as its seed, which sprouts in the first round without a draw; each
/// further round goes over all the tokens of the one before and draws on from where
/// that one stopped.
pub proof fn law_rounds_follow_each_other(state: u64, p: Probs, k: nat)
    ensures
        stage(state, p, 0) == (seq![TOK_S], state),
        stage(state, p, 1) == (seq![TOK_F, TOK_B], state),
        ({
            let (tokens, mid) = stage(state, p, k);
            stage(state, p, k + 1) == rewriting(tokens, mid, p, tokens.len() as int)
        }),
{
    reveal_with_fuel(stage, 2);
    reveal_with_fuel(rewriting, 2);
    assert(stage(state, p, 1).0 =~= seq![TOK_F, TOK_B]);
}

/// The budget bounds a tree: growing stops with the round that passes it, so
/// that it is overshot by one round's growth at most.
pub proof fn law_budget_bounds_segments(state: u64, p: Probs, growth: nat, budget: u64)
    ensures
        stage_segments(state, p, rounds(state, p, growth, budget)) <= crate::arith::most(
            5 * budget,
            1,
        ),
    decreases growth,
{
    if growth > 0 {
        let before = rounds(state, p, (growth - 1) as nat, budget);
        law_budget_bounds_segments(state, p, (growth - 1) as nat, budget);
        lemma_rounds_step(state, p, (growth - 1) as nat, budget);
        if rounds(state, p, growth, budget) == growth && growth > 1 {
            law_stages_are_grown(state, p, (growth - 1) as nat);
        } else if growth == 1 {
            law_stages_are_grown(state, p, 1);
        }
    }
}

/// How deep the branches are nested at the end of the tokens.
pub open spec fn depth(tokens: Seq<u8>) -> int
    decreases tokens.len(),
{
    if tokens.len() == 0 {
        0
    } else {
        depth(tokens.drop_last()) + (if tokens.last() == TOK_PUSH {
            1int
        } else if tokens.last() == TOK_POP {
            -1int
        } else {
            0int
        })
    }
}

/// No branch ends that has not begun, starting `base` branches deep.
pub open spec fn never_below(tokens: Seq<u8>, base: int) -> bool {
    forall|k: int| 0 <= k <= tokens.len() ==> base + #[trigger] depth(tokens.take(k)) >= 0
}

/// Every branch that begins ends, and none ends that has not begun.
pub open spec fn is_nested(tokens: Seq<u8>) -> bool {
    never_below(tokens, 0) && depth(tokens) == 0
}

proof fn lemma_depth_concat(a: Seq<u8>, b: Seq<u8>)
    ensures
        depth(a + b) == depth(a) + depth(b),
    decreases b.len(),
{
    if b.len() == 0 {
        assert(a + b =~= a);
    } else {
        assert((a + b).drop_last() =~= a + b.drop_last());
        lemma_depth_concat(a, b.drop_last());
    }
}

proof fn lemma_never_below_concat(a: Seq<u8>, b: Seq<u8>, base: int)
    requires
        never_below(a, base),
        never_below(b, base + depth(a)),
    ensures
        never_below(a + b, base),
{
    assert forall|k: int| 0 <= k <= (a + b).len() implies base + #[trigger] depth((a + b).take(k))
        >= 0 by {
        if k <= a.len() {
            assert((a + b).take(k) =~= a.take(k));
        } else {
            assert((a + b).take(k) =~= a + b.take(k - a.len()));
            lemma_depth_concat(a, b.take(k - a.len()));
        }
    }
}

proof fn lemma_block_nested(s: Seq<u8>)
    requires
        s == left_shape() || s == right_shape() || s == even_shape() || s == seq![TOK_F] || s
            == seq![TOK_F, TOK_F] || s == seq![TOK_B] || s == seq![TOK_F, TOK_B],
    ensures
        is_nested(s),
{
    assert forall|k: int| 0 <= k <= s.len() implies #[trigger] depth(s.take(k)) >= 0 && (depth(
        s.take(k),
    ) <= 1) && (k == s.len() ==> depth(s.take(k)) == 0) by {
        lemma_block_depth(s, k);
    }
    assert(s.take(s.len() as int) =~= s);
}

/// The depth inside a shape is one inside a branch and nought outside.
spec fn shape_depth(s: Seq<u8>, k: int) -> int {
    if s == left_shape() {
        if (1 <= k <= 5) || (7 <= k <= 10) {
            1
        } else {
            0
        }
    } else if s == right_shape() {
        if (1 <= k <= 4) || (6 <= k <= 10) {
            1
        } else {
            0
        }
    } else if s == even_shape() {
        if (1 <= k <= 5) || (7 <= k <= 10) || (12 <= k <= 16) {
            1
        } else {
            0
        }
    } else {
        0
    }
}

proof fn lemma_block_depth(s: Seq<u8>, k: int)
    requires
        s == left_shape() || s == right_shape() || s == even_shape() || s == seq![TOK_F] || s
            == seq![TOK_F, TOK_F] || s == seq![TOK_B] || s == seq![TOK_F, TOK_B],
        0 <= k <= s.len(),
    ensures
        depth(s.take(k)) == shape_depth(s, k),
    decreases k,
{
    assert(left_shape().len() == 11 && right_shape().len() == 11 && even_shape().len() == 17);
    assert(left_shape()[2] != right_shape()[2]);
    if k > 0 {
        lemma_block_depth(s, k - 1);
        assert(s.take(k).drop_last() =~= s.take(k - 1));
        assert(s.take(k).last() == s[k - 1]);
    }
}

proof fn lemma_token_depth(c: u8)
    ensures
        depth(seq![c]) == (if c == TOK_PUSH {
            1int
        } else if c == TOK_POP {
            -1int
        } else {
            0int
        }),
{
    assert(seq![c].drop_last() =~= Seq::<u8>::empty());
    reveal_with_fuel(depth, 2);
}

proof fn lemma_rewriting_nested(tokens: Seq<u8>, state: u64, p: Probs, k: int)
    requires
        0 <= k <= tokens.len(),
        never_below(tokens, 0),
    ensures
        never_below(rewriting(tokens, state, p, k).0, 0),
        depth(rewriting(tokens, state, p, k).0) == depth(tokens.take(k)),
    decreases k,
{
    if k > 0 {
        lemma_rewriting_nested(tokens, state, p, k - 1);
        let (done, mid) = rewriting(tokens, state, p, k - 1);
        let c = tokens[k - 1];
        let own = rewritten(c, mid, p).0;
        assert(tokens.take(k).drop_last() =~= tokens.take(k - 1));
        assert(tokens.take(k).last() == c);
        let base = depth(done);
        assert(base >= 0) by {
            assert(done.take(done.len() as int) =~= done);
        }
        if c == TOK_S || c == TOK_F || c == TOK_B {
            lemma_block_nested(own);
            assert forall|j: int| 0 <= j <= own.len() implies base + #[trigger] depth(own.take(j))
                >= 0 by {}
        } else {
            lemma_token_depth(c);
            assert(depth(tokens.take(k)) >= 0);
            assert forall|j: int| 0 <= j <= own.len() implies base + #[trigger] depth(own.take(j))
                >= 0 by {
                if j == 0 {
                    assert(own.take(0) =~= Seq::<u8>::empty());
                } else {
                    assert(own.take(j) =~= own);
                }
            }
        }
        lemma_depth_concat(done, own);
        lemma_never_below_concat(done, own, 0);
    } else {
        assert(tokens.take(0) =~= Seq::<u8>::empty());
        assert forall|j: int| 0 <= j <= 0 implies #[trigger] depth(Seq::<u8>::empty().take(j))
            >= 0 by {
            assert(Seq::<u8>::empty().take(j) =~= Seq::<u8>::empty());
        }
    }
}

/// Branches are nested at every stage, so that a turtle never lacks a place to
/// return to.
pub proof fn law_branches_are_nested(state: u64, p: Probs, k: nat)
    ensures
        is_nested(stage(state, p, k).0),
    decreases k,
{
    if k == 0 {
        let seed = seq![TOK_S];
        lemma_token_depth(TOK_S);
        assert forall|j: int| 0 <= j <= 1 implies #[trigger] depth(seed.take(j)) >= 0 by {
            if j == 0 {
                assert(seed.take(0) =~= Seq::<u8>::empty());
            } else {
                assert(seed.take(1) =~= seed);
            }
        }
    } else {
        law_branches_are_nested(state, p, (k - 1) as nat);
        let (tokens, mid) = stage(state, p, (k - 1) as nat);
        lemma_rewriting_nested(tokens, mid, p, tokens.len() as int);
        assert(tokens.take(tokens.len() as int) =~= tokens);
    }
}

} // verus!
