//! The shapes that a fish is drawn from: the points along its two sides.

use vstd::prelude::*;

use crate::fish::game::JOINTS;
use crate::oracle::{
    answer1, answer2, answered1, answered2, lemma_answer1, lemma_answer2, single_valued1,
    single_valued2,
};

verus! {

/// The points of a shape's two sides, head first.
pub struct Sides<P> {
    pub left: Vec<P>,
    pub right: Vec<P>,
}

/// The two points at either side of a joint: across the way from it to another,
/// at a share, in hundredths, of the body's width at a joint.
#[derive(Clone, Copy, Debug, PartialEq, Eq, Structural)]
pub struct Flank {
    pub at: usize,
    pub towards: usize,
    pub width: usize,
    pub share: u32,
}

impl Flank {
    /// It speaks of joints that there are.
    pub open spec fn fits(self) -> bool {
        self.at < JOINTS && self.towards < JOINTS && self.width < JOINTS
    }
}

/// The flanks of the body: those of every joint that the tail does not cover.
pub open spec fn body_flank(i: int) -> Flank {
    Flank { at: i as usize, towards: (i + 1) as usize, width: i as usize, share: 100 }
}

/// The flanks of the fin on the back, which bows out in the middle.
pub open spec fn dorsal_flank(i: int) -> Flank {
    Flank {
        at: (2 + i) as usize,
        towards: (3 + i) as usize,
        width: (2 + i) as usize,
        share: if i == 0 {
            2
        } else if i == 4 {
            3
        } else {
            10
        },
    }
}

/// The flank at the root of the tail.
pub open spec fn tail_root() -> Flank {
    Flank { at: 9, towards: 10, width: 10, share: 80 }
}

/// The flank at the end of the tail. It looks back, so its sides are swapped.
pub open spec fn tail_fork() -> Flank {
    Flank { at: 11, towards: 10, width: 11, share: 120 }
}

/// The right point of a flank.
pub open spec fn right_of<P, F: Fn(Flank) -> (P, P)>(flank: F, f: Flank) -> P {
    answer1(flank, f).0
}

/// The left point of a flank.
pub open spec fn left_of<P, F: Fn(Flank) -> (P, P)>(flank: F, f: Flank) -> P {
    answer1(flank, f).1
}

/// The sides of the body: the nose, which both sides share, two points of the
/// cheek, and the flanks. `cheek` gives a point of the cheek on the left side or
/// not, at the wide angle or not; `flank` the right and the left point of a
/// flank.
pub fn emit_body<P: Copy, C: Fn(bool, bool) -> P, F: Fn(Flank) -> (P, P)>(
    nose: P,
    cheek: C,
    flank: F,
) -> (sides: Sides<P>)
    requires
        single_valued2(cheek),
        single_valued1(flank),
        forall|l: bool, w: bool| cheek.requires((l, w)),
        forall|f: Flank| f.fits() ==> #[trigger] flank.requires((f,)),
    ensures
        sides.left@ == seq![nose, answer2(cheek, true, false), answer2(cheek, true, true)]
            + Seq::new(10, |i: int| left_of(flank, body_flank(i))),
        sides.right@ == seq![nose, answer2(cheek, false, false), answer2(cheek, false, true)]
            + Seq::new(10, |i: int| right_of(flank, body_flank(i))),
        forall|l: bool, w: bool| #[trigger] answered2(cheek, l, w),
        forall|i: int| 0 <= i < 10 ==> answered1(flank, #[trigger] body_flank(i)),
{
    let mut left: Vec<P> = Vec::new();
    let mut right: Vec<P> = Vec::new();
    left.push(nose);
    right.push(nose);
    let near_left: P = cheek(true, false);
    let far_left: P = cheek(true, true);
    let near_right: P = cheek(false, false);
    let far_right: P = cheek(false, true);
    proof {
        lemma_answer2(cheek, true, false, near_left);
        lemma_answer2(cheek, true, true, far_left);
        lemma_answer2(cheek, false, false, near_right);
        lemma_answer2(cheek, false, true, far_right);
    }
    left.push(near_left);
    left.push(far_left);
    right.push(near_right);
    right.push(far_right);
    let ghost (l0, r0) = (
        seq![nose, answer2(cheek, true, false), answer2(cheek, true, true)],
        seq![nose, answer2(cheek, false, false), answer2(cheek, false, true)],
    );
    let mut i: usize = 0;
    assert(left@ =~= l0 + Seq::new(0, |k: int| left_of(flank, body_flank(k))));
    assert(right@ =~= r0 + Seq::new(0, |k: int| right_of(flank, body_flank(k))));
    while i < 10
        invariant
            i <= 10,
            single_valued1(flank),
            forall|f: Flank| f.fits() ==> #[trigger] flank.requires((f,)),
            left@ == l0 + Seq::new(i as nat, |k: int| left_of(flank, body_flank(k))),
            right@ == r0 + Seq::new(i as nat, |k: int| right_of(flank, body_flank(k))),
            forall|k: int| 0 <= k < i ==> answered1(flank, #[trigger] body_flank(k)),
        decreases 10 - i,
    {
        let f: Flank = Flank { at: i, towards: i + 1, width: i, share: 100 };
        let pair: (P, P) = flank(f);
        proof {
            lemma_answer1(flank, f, pair);
        }
        left.push(pair.1);
        right.push(pair.0);
        i += 1;
        assert(left@ =~= l0 + Seq::new(i as nat, |k: int| left_of(flank, body_flank(k))));
        assert(right@ =~= r0 + Seq::new(i as nat, |k: int| right_of(flank, body_flank(k))));
    }
    Sides { left, right }
}

/// The sides of the tail: its root, its fork, and its end, which the left side
/// has.
pub fn emit_tail<P: Copy, F: Fn(Flank) -> (P, P)>(end: P, flank: F) -> (sides: Sides<P>)
    requires
        single_valued1(flank),
        forall|f: Flank| f.fits() ==> #[trigger] flank.requires((f,)),
    ensures
        sides.left@ == seq![left_of(flank, tail_root()), right_of(flank, tail_fork()), end],
        sides.right@ == seq![right_of(flank, tail_root()), left_of(flank, tail_fork())],
        answered1(flank, tail_root()),
        answered1(flank, tail_fork()),
{
    let root: Flank = Flank { at: 9, towards: 10, width: 10, share: 80 };
    let fork: Flank = Flank { at: 11, towards: 10, width: 11, share: 120 };
    let base: (P, P) = flank(root);
    let tips: (P, P) = flank(fork);
    proof {
        lemma_answer1(flank, root, base);
        lemma_answer1(flank, fork, tips);
    }
    let mut left: Vec<P> = Vec::new();
    let mut right: Vec<P> = Vec::new();
    left.push(base.1);
    right.push(base.0);
    left.push(tips.0);
    right.push(tips.1);
    left.push(end);
    assert(left@ =~= seq![left_of(flank, tail_root()), right_of(flank, tail_fork()), end]);
    assert(right@ =~= seq![right_of(flank, tail_root()), left_of(flank, tail_fork())]);
    Sides { left, right }
}

/// The sides of the fin on the back, which start and end on the spine.
pub fn emit_dorsal_fin<P: Copy, F: Fn(Flank) -> (P, P)>(joints: &Vec<P>, flank: F) -> (sides: Sides<
    P,
>)
    requires
        joints.len() == JOINTS,
        single_valued1(flank),
        forall|f: Flank| f.fits() ==> #[trigger] flank.requires((f,)),
    ensures
        sides.left@ == seq![joints[2]] + Seq::new(5, |i: int| left_of(flank, dorsal_flank(i)))
            + seq![joints[6]],
        sides.right@ == seq![joints[2]] + Seq::new(5, |i: int| right_of(flank, dorsal_flank(i)))
            + seq![joints[6]],
        forall|i: int| 0 <= i < 5 ==> answered1(flank, #[trigger] dorsal_flank(i)),
{
    let mut left: Vec<P> = Vec::new();
    let mut right: Vec<P> = Vec::new();
    left.push(joints[2]);
    right.push(joints[2]);
    let ghost l0 = seq![joints[2]];
    let mut i: usize = 0;
    assert(left@ =~= l0 + Seq::new(0, |k: int| left_of(flank, dorsal_flank(k))));
    assert(right@ =~= l0 + Seq::new(0, |k: int| right_of(flank, dorsal_flank(k))));
    while i < 5
        invariant
            i <= 5,
            single_valued1(flank),
            forall|f: Flank| f.fits() ==> #[trigger] flank.requires((f,)),
            left@ == l0 + Seq::new(i as nat, |k: int| left_of(flank, dorsal_flank(k))),
            right@ == l0 + Seq::new(i as nat, |k: int| right_of(flank, dorsal_flank(k))),
            forall|k: int| 0 <= k < i ==> answered1(flank, #[trigger] dorsal_flank(k)),
        decreases 5 - i,
    {
        let share: u32 = if i == 0 {
            2
        } else if i == 4 {
            3
        } else {
            10
        };
        let f: Flank = Flank { at: 2 + i, towards: 3 + i, width: 2 + i, share };
        let pair: (P, P) = flank(f);
        proof {
            lemma_answer1(flank, f, pair);
        }
        left.push(pair.1);
        right.push(pair.0);
        i += 1;
        assert(left@ =~= l0 + Seq::new(i as nat, |k: int| left_of(flank, dorsal_flank(k))));
        assert(right@ =~= l0 + Seq::new(i as nat, |k: int| right_of(flank, dorsal_flank(k))));
    }
    left.push(joints[6]);
    right.push(joints[6]);
    assert(left@ =~= l0 + Seq::new(5, |k: int| left_of(flank, dorsal_flank(k))) + seq![joints[6]]);
    assert(right@ =~= l0 + Seq::new(5, |k: int| right_of(flank, dorsal_flank(k))) + seq![
        joints[6],
    ]);
    Sides { left, right }
}

/// The flanks run along the spine: the body has one at each joint from the head
/// on, at the joint's full width, each facing the joint behind it; the fin on the
/// back has one at each of five joints from the third on, thin at both ends; the
/// tail widens from its root towards its fork, which faces forward.
pub proof fn law_flanks_run_along_the_spine(i: int)
    ensures
        body_flank(0).at == 0,
        0 <= i < 10 ==> {
            let own = body_flank(i);
            &&& own.fits()
            &&& own.at == own.width
            &&& own.towards == own.at + 1
            &&& own.share == 100
            &&& i > 0 ==> own.at == body_flank(i - 1).towards
        },
        dorsal_flank(0).at == 2,
        0 <= i < 5 ==> {
            let own = dorsal_flank(i);
            &&& own.fits()
            &&& own.at == own.width
            &&& own.towards == own.at + 1
            &&& i > 0 ==> own.at == dorsal_flank(i - 1).towards
            &&& 1 <= i <= 3 ==> own.share == 10
        },
        dorsal_flank(0).share == 2,
        dorsal_flank(4).share == 3,
        tail_root().fits(),
        tail_root().at == 9,
        tail_root().towards == 10,
        tail_root().width == 10,
        tail_root().share == 80,
        tail_fork().fits(),
        tail_fork().at == 11,
        tail_fork().towards == 10,
        tail_fork().width == 11,
        tail_fork().share == 120,
{
}

/// The flank kernel gives the right side first and the left side second.
pub proof fn law_flanks_have_two_sides<P, F: Fn(Flank) -> (P, P)>(flank: F, f: Flank)
    ensures
        (right_of(flank, f), left_of(flank, f)) == answer1(flank, f),
{
}

} // verus!
