//! A fish: a chain of joints that follows a target.

use vstd::prelude::*;

use crate::fish::game::JOINTS;
use crate::oracle::{
    answer2, answer3, answered2, answered3, lemma_answer2, lemma_answer3, single_valued2,
    single_valued3,
};

verus! {

/// The spine: its joints, head first, and the target of its head.
pub struct Spine<P> {
    pub joints: Vec<P>,
    pub target: P,
}

/// The joint before the one at `i`.
pub open spec fn joint_before<P>(joints: Seq<P>, i: int) -> Option<P> {
    if i > 0 {
        Some(joints[i - 1])
    } else {
        None
    }
}

/// The chain once its head has gone to `target` and the first `k` joints behind
/// it were seated anew. `seat` places a joint behind the one before it, given
/// the joint before that where there is one.
pub open spec fn followed<P, S: Fn(Option<P>, P, P) -> P>(
    joints: Seq<P>,
    target: P,
    seat: S,
    k: int,
) -> Seq<P>
    decreases k,
{
    if k <= 0 {
        joints.update(0, target)
    } else {
        let done = followed(joints, target, seat, k - 1);
        done.update(k, answer3(seat, joint_before(done, k - 1), done[k - 1], done[k]))
    }
}

/// The first `k` joints behind the head are where `seat` put them.
pub open spec fn were_seated<P, S: Fn(Option<P>, P, P) -> P>(
    joints: Seq<P>,
    target: P,
    seat: S,
    k: int,
) -> bool {
    forall|i: int|
        0 <= i < k ==> {
            let done = #[trigger] followed(joints, target, seat, i);
            answered3(seat, joint_before(done, i), done[i], done[i + 1])
        }
}

impl<P: Copy> Spine<P> {
    /// The spine has all its joints.
    pub open spec fn wf(&self) -> bool {
        self.joints.len() == JOINTS
    }

    /// A spine with all joints in one place.
    pub fn new(joint: P, target: P) -> (spine: Self)
        ensures
            spine.wf(),
            spine.joints@ == Seq::new(JOINTS as nat, |_i: int| joint),
            spine.target == target,
    {
        let mut joints: Vec<P> = Vec::new();
        let mut i: usize = 0;
        while i < JOINTS
            invariant
                i <= JOINTS,
                joints@ == Seq::new(i as nat, |_i: int| joint),
            decreases JOINTS - i,
        {
            joints.push(joint);
            i += 1;
            assert(joints@ =~= Seq::new(i as nat, |_i: int| joint));
        }
        Spine { joints, target }
    }

    /// Snap the head to the target and seat every joint behind it anew. The
    /// chain rests while its head has arrived.
    pub fn update<N: Fn(P, P) -> bool, S: Fn(Option<P>, P, P) -> P>(&mut self, arrived: N, seat: S)
        requires
            old(self).wf(),
            single_valued2(arrived),
            single_valued3(seat),
            forall|a: P, b: P| arrived.requires((a, b)),
            forall|a: Option<P>, b: P, c: P| seat.requires((a, b, c)),
        ensures
            final(self).wf(),
            final(self).target == old(self).target,
            final(self).joints@ == (if arrived.ensures(
                (old(self).joints[0], old(self).target),
                true,
            ) {
                old(self).joints@
            } else {
                followed(old(self).joints@, old(self).target, seat, JOINTS - 1)
            }),
            answered2(arrived, old(self).joints[0], old(self).target),
            !answer2(arrived, old(self).joints[0], old(self).target) ==> were_seated(
                old(self).joints@,
                old(self).target,
                seat,
                JOINTS - 1,
            ),
    {
        let rests: bool = arrived(self.joints[0], self.target);
        proof {
            lemma_answer2(arrived, self.joints[0], self.target, rests);
        }
        if rests {
            return;
        }
        let ghost before = self.joints@;
        let target: P = self.target;
        self.joints.set(0, target);
        let mut i: usize = 0;
        while i < JOINTS - 1
            invariant
                i <= JOINTS - 1,
                self.joints.len() == JOINTS,
                self.target == target,
                single_valued3(seat),
                forall|a: Option<P>, b: P, c: P| seat.requires((a, b, c)),
                self.joints@ == followed(before, target, seat, i as int),
                were_seated(before, target, seat, i as int),
            decreases JOINTS - 1 - i,
        {
            let ahead: Option<P> = if i > 0 {
                Some(self.joints[i - 1])
            } else {
                None
            };
            let (here, next) = (self.joints[i], self.joints[i + 1]);
            let placed: P = seat(ahead, here, next);
            proof {
                lemma_answer3(seat, ahead, here, next, placed);
            }
            self.joints.set(i + 1, placed);
            i += 1;
        }
    }
}

proof fn lemma_followed<P, S: Fn(Option<P>, P, P) -> P>(
    joints: Seq<P>,
    target: P,
    seat: S,
    k: int,
    i: int,
)
    requires
        0 <= k < joints.len(),
        0 <= i < joints.len(),
    ensures
        followed(joints, target, seat, k).len() == joints.len(),
        followed(joints, target, seat, k)[0] == target,
        i > k ==> followed(joints, target, seat, k)[i] == joints[i],
        i <= k ==> followed(joints, target, seat, k)[i] == followed(joints, target, seat, i)[i],
    decreases k,
{
    if k > 0 {
        lemma_followed(joints, target, seat, k - 1, i);
    }
}

/// After a move the head sits on the target.
pub proof fn law_head_reaches_target<P, S: Fn(Option<P>, P, P) -> P>(
    joints: Seq<P>,
    target: P,
    seat: S,
)
    requires
        joints.len() == JOINTS,
    ensures
        followed(joints, target, seat, JOINTS - 1)[0] == target,
{
    lemma_followed(joints, target, seat, JOINTS - 1, 0);
}

/// A joint is placed from the joints ahead of it, as they have just been
/// placed, and from where it was itself: no joint behind it has a say.
pub proof fn law_joints_follow_those_ahead<P, S: Fn(Option<P>, P, P) -> P>(
    joints: Seq<P>,
    target: P,
    seat: S,
    i: int,
)
    requires
        joints.len() == JOINTS,
        1 <= i < JOINTS,
    ensures
        ({
            let after = followed(joints, target, seat, JOINTS - 1);
            after[i] == answer3(seat, joint_before(after, i - 1), after[i - 1], joints[i])
        }),
{
    let last = JOINTS - 1;
    lemma_followed(joints, target, seat, last, i);
    lemma_followed(joints, target, seat, last, i - 1);
    lemma_followed(joints, target, seat, i, i);
    lemma_followed(joints, target, seat, i - 1, i);
    lemma_followed(joints, target, seat, i - 1, i - 1);
    if i >= 2 {
        lemma_followed(joints, target, seat, last, i - 2);
        lemma_followed(joints, target, seat, i - 1, i - 2);
    }
}

/// A fish: its spine, where it heads, and whether it weaves.
pub struct Fish<P> {
    pub spine: Spine<P>,
    /// Where the fish heads, before the weave.
    pub base_target: Option<P>,
    /// The direction that the weave is taken across.
    pub travel_dir: Option<P>,
    pub wave: bool,
}

impl<P: Copy> Fish<P> {
    /// The place that the fish heads for.
    pub open spec fn heading(&self) -> P {
        match self.base_target {
            Some(p) => p,
            None => self.spine.target,
        }
    }

    /// A fish whose joints all lie in one place and whose head is drawn to
    /// `origin`; it weaves.
    pub fn new(joint: P, origin: P) -> (fish: Self)
        ensures
            fish.spine.wf(),
            fish.spine.joints@ == Seq::new(JOINTS as nat, |_i: int| joint),
            fish.spine.target == origin,
            fish.base_target is None,
            fish.travel_dir is None,
            fish.wave,
    {
        Fish { spine: Spine::new(joint, origin), base_target: None, travel_dir: None, wave: true }
    }

    /// The fish's head.
    pub fn head(&self) -> (p: P)
        requires
            self.spine.wf(),
        ensures
            p == self.spine.joints[0],
    {
        self.spine.joints[0]
    }

    /// Head for `target`, weaving across `dir` or, without one, across the way
    /// from the head to the target. `offset` gives the way between two points.
    pub fn set_target<O: Fn(P, P) -> P>(&mut self, target: P, dir: Option<P>, offset: O)
        requires
            old(self).spine.wf(),
            single_valued2(offset),
            forall|a: P, b: P| offset.requires((a, b)),
        ensures
            final(self).spine == old(self).spine,
            final(self).wave == old(self).wave,
            final(self).base_target == Some(target),
            final(self).travel_dir == (match dir {
                Some(d) => Some(d),
                None => Some(answer2(offset, old(self).spine.joints[0], target)),
            }),
            dir is None ==> answered2(offset, old(self).spine.joints[0], target),
    {
        let across: P = match dir {
            Some(d) => d,
            None => {
                let head: P = self.spine.joints[0];
                let way: P = offset(head, target);
                proof {
                    lemma_answer2(offset, head, target, way);
                }
                way
            },
        };
        self.travel_dir = Some(across);
        self.base_target = Some(target);
    }

    /// Move the heading on towards `target`. `step` takes one frame's step from
    /// a point towards another, `offset` gives the way between two points.
    pub fn set_target_at_speed<T: Fn(P, P) -> P, O: Fn(P, P) -> P>(
        &mut self,
        target: P,
        step: T,
        offset: O,
    )
        requires
            single_valued2(step),
            single_valued2(offset),
            forall|a: P, b: P| step.requires((a, b)),
            forall|a: P, b: P| offset.requires((a, b)),
        ensures
            final(self).spine == old(self).spine,
            final(self).wave == old(self).wave,
            final(self).base_target == Some(answer2(step, old(self).heading(), target)),
            final(self).travel_dir == Some(
                answer2(offset, answer2(step, old(self).heading(), target), target),
            ),
            answered2(step, old(self).heading(), target),
            answered2(offset, answer2(step, old(self).heading(), target), target),
    {
        let from: P = match self.base_target {
            Some(p) => p,
            None => self.spine.target,
        };
        let base: P = step(from, target);
        let way: P = offset(base, target);
        proof {
            lemma_answer2(step, from, target, base);
            lemma_answer2(offset, base, target, way);
        }
        self.base_target = Some(base);
        self.travel_dir = Some(way);
    }

    /// Aim the head at the heading, off to the side while the fish weaves, and
    /// let the spine follow. `weave` moves a target aside, given the direction
    /// of travel.
    pub fn update<
        W: Fn(P, P) -> P,
        N: Fn(P, P) -> bool,
        S: Fn(Option<P>, P, P) -> P,
    >(&mut self, weave: W, arrived: N, seat: S)
        requires
            old(self).spine.wf(),
            single_valued2(weave),
            single_valued2(arrived),
            single_valued3(seat),
            forall|a: P, b: P| weave.requires((a, b)),
            forall|a: P, b: P| arrived.requires((a, b)),
            forall|a: Option<P>, b: P, c: P| seat.requires((a, b, c)),
        ensures
            final(self).spine.wf(),
            final(self).base_target == old(self).base_target,
            final(self).travel_dir == old(self).travel_dir,
            final(self).wave == old(self).wave,
            final(self).spine.target == (match old(self).travel_dir {
                Some(d) if old(self).wave => answer2(weave, old(self).heading(), d),
                _ => old(self).heading(),
            }),
            old(self).wave && old(self).travel_dir is Some ==> answered2(
                weave,
                old(self).heading(),
                old(self).travel_dir->0,
            ),
            answered2(arrived, old(self).spine.joints[0], final(self).spine.target),
            !answer2(arrived, old(self).spine.joints[0], final(self).spine.target) ==> were_seated(
                old(self).spine.joints@,
                final(self).spine.target,
                seat,
                JOINTS - 1,
            ),
            final(self).spine.joints@ == (if arrived.ensures(
                (old(self).spine.joints[0], final(self).spine.target),
                true,
            ) {
                old(self).spine.joints@
            } else {
                followed(
                    old(self).spine.joints@,
                    final(self).spine.target,
                    seat,
                    JOINTS - 1,
                )
            }),
    {
        let mut target: P = match self.base_target {
            Some(p) => p,
            None => self.spine.target,
        };
        if self.wave {
            if let Some(d) = self.travel_dir {
                let aside: P = weave(target, d);
                proof {
                    lemma_answer2(weave, target, d, aside);
                }
                target = aside;
            }
        }
        self.spine.target = target;
        self.spine.update(arrived, seat);
    }
}

/// Each joint is seated by the two ahead of it, as they are by then, from where it
/// was itself; the one behind the head has only the head ahead of it.
pub proof fn law_joints_see_two_ahead<P, S: Fn(Option<P>, P, P) -> P>(
    joints: Seq<P>,
    target: P,
    seat: S,
    i: int,
)
    requires
        joints.len() == JOINTS,
        1 <= i < JOINTS,
    ensures
        ({
            let after = followed(joints, target, seat, JOINTS - 1);
            &&& after.len() == JOINTS
            &&& i == 1 ==> after[1] == answer3(seat, None::<P>, target, joints[1])
            &&& i >= 2 ==> after[i] == answer3(seat, Some(after[i - 2]), after[i - 1], joints[i])
        }),
{
    law_joints_follow_those_ahead(joints, target, seat, i);
    law_head_reaches_target(joints, target, seat);
    lemma_followed(joints, target, seat, JOINTS - 1, i);
}

/// A fish heads for its target, and before it has one for where its spine is bound.
pub proof fn law_fish_head_for_their_target<P: Copy>(fish: Fish<P>)
    ensures
        fish.base_target matches Some(p) ==> fish.heading() == p,
        fish.base_target is None ==> fish.heading() == fish.spine.target,
{
}

} // verus!
