//! Particles that ride the field, each with a trail of where it was.

use vstd::prelude::*;

use crate::oracle::{
    answer1, answer2, answer4, answered1, answered2, answered4, lemma_answer1, lemma_answer2,
    lemma_answer4, single_valued1, single_valued2, single_valued4,
};
use crate::rng::{rng_draw, rng_step, spread_seed, Rng};
use crate::shell::SECOND;

verus! {

/// The samples that a trail keeps.
pub const TRAIL_CAP: usize = 20;

/// Samples per second of simulated time.
pub const TRAIL_RECORD_HZ: u64 = 60;

/// The seed of the particles' generator.
pub const PARTICLE_SEED: u64 = 0xF1E1D;

/// The slot of a ring that holds the sample of an age, newest first.
pub open spec fn ring_slot(head: int, age: int) -> int {
    (head + TRAIL_CAP - age) % TRAIL_CAP as int
}

/// The trail of a particle, newest sample first.
pub open spec fn history<P>(trail: Seq<P>, head: u8, len: u8, i: int) -> Seq<P> {
    Seq::new(len as nat, |age: int| trail[TRAIL_CAP * i + ring_slot(head as int, age)])
}

/// A trail with one more sample; the oldest goes where it is full.
pub open spec fn recorded<P>(past: Seq<P>, sample: P) -> Seq<P> {
    let longer = seq![sample] + past;
    if longer.len() > TRAIL_CAP {
        longer.take(TRAIL_CAP as int)
    } else {
        longer
    }
}

/// A trail after `k` of `n` samples along the way from `a` to `b`.
pub open spec fn recorded_way<P, S: Fn(P, P, usize, usize) -> P>(
    past: Seq<P>,
    a: P,
    b: P,
    sample: S,
    n: usize,
    k: nat,
) -> Seq<P>
    decreases k,
{
    if k == 0 {
        past
    } else {
        recorded(
            recorded_way(past, a, b, sample, n, (k - 1) as nat),
            answer4(sample, a, b, k as usize, n),
        )
    }
}

/// A ring after `k` of `n` samples along the way from `a` to `b`, each in the
/// slot behind the one before it.
pub open spec fn ring_way<P, S: Fn(P, P, usize, usize) -> P>(
    ring: Seq<P>,
    head: int,
    a: P,
    b: P,
    sample: S,
    n: usize,
    k: nat,
) -> Seq<P>
    decreases k,
{
    if k == 0 {
        ring
    } else {
        ring_way(ring, head, a, b, sample, n, (k - 1) as nat).update(
            (head + k) % TRAIL_CAP as int,
            answer4(sample, a, b, k as usize, n),
        )
    }
}

/// The first `k` of `n` samples along a way are answers that `sample` gave.
pub open spec fn way_made<P, S: Fn(P, P, usize, usize) -> P>(
    a: P,
    b: P,
    sample: S,
    n: usize,
    k: nat,
) -> bool {
    forall|r: usize| 1 <= r <= k ==> #[trigger] answered4(sample, a, b, r, n)
}

/// The time until the next sample, in sixtieths of a nanosecond, of which the
/// time between two samples has as many as a second has nanoseconds.
#[derive(Clone, Copy, Debug, PartialEq, Eq, Structural)]
pub struct RecordClock {
    pub acc: u64,
}

impl RecordClock {
    /// Less than the time between two samples has gathered.
    pub open spec fn wf(self) -> bool {
        self.acc < SECOND
    }

    /// The time that has gathered after `dt` nanoseconds.
    pub open spec fn gathered(self, dt: u64) -> int {
        self.acc + dt * TRAIL_RECORD_HZ
    }

    /// The samples that are due after `dt` nanoseconds, as many as a trail keeps
    /// at most.
    pub open spec fn due(self, dt: u64) -> int {
        crate::arith::least(self.gathered(dt) / SECOND as int, TRAIL_CAP as int)
    }

    /// The samples that are due after `dt` nanoseconds. A long hitch does not
    /// ask for more than a trail keeps.
    pub fn advance(&mut self, dt: u64) -> (records: usize)
        requires
            old(self).wf(),
        ensures
            final(self).wf(),
            final(self).acc as int == old(self).gathered(dt) % SECOND as int,
            records as int == old(self).due(dt),
    {
        let passed: u128 = dt as u128 * 60;
        let total: u128 = self.acc as u128 + passed;
        let due: u128 = total / SECOND as u128;
        self.acc = (total % SECOND as u128) as u64;
        if due < TRAIL_CAP as u128 {
            due as usize
        } else {
            TRAIL_CAP
        }
    }
}

/// Trails do not depend on the frame rate: two frames ask for as many samples as
/// one of their length.
pub proof fn law_recording_ignores_frame_rate(clock: RecordClock, a: u64, b: u64)
    requires
        clock.wf(),
        a + b <= u64::MAX,
    ensures
        ({
            let first = clock.gathered(a) / SECOND as int;
            let middle = RecordClock { acc: (clock.gathered(a) % SECOND as int) as u64 };
            let second = middle.gathered(b) / SECOND as int;
            &&& first + second == clock.gathered((a + b) as u64) / SECOND as int
            &&& middle.gathered(b) % SECOND as int == clock.gathered((a + b) as u64) % SECOND as int
        }),
{
}

/// The particles.
pub struct FlowParticles<P, L> {
    pub pos: Vec<P>,
    pub life: Vec<L>,
    /// The rings of the trails, `TRAIL_CAP` samples for each particle.
    pub trail: Vec<P>,
    /// Where each ring's newest sample is.
    pub head: Vec<u8>,
    /// How many samples each ring holds.
    pub len: Vec<u8>,
    pub rng: Rng,
    pub clock: RecordClock,
}

/// The generator's state after those of the first `k` particles that are gone
/// have come back, with three draws each.
pub open spec fn state_after(gone: Seq<bool>, state: u64, k: int) -> u64
    decreases k,
{
    if k <= 0 {
        state
    } else {
        let before = state_after(gone, state, k - 1);
        if gone[k - 1] {
            rng_step(rng_step(rng_step(before)))
        } else {
            before
        }
    }
}

/// The ring of a particle that was just spawned at a place.
pub open spec fn fresh_ring<P>(pos: P, blank: P) -> Seq<P> {
    Seq::new(TRAIL_CAP as nat, |slot: int| if slot == 0 { pos } else { blank })
}

/// The place that a state's next two draws give.
pub open spec fn drawn_place<P, A: Fn(u32, u32) -> P>(state: u64, place: A) -> P {
    answer2(place, rng_draw(rng_step(state)), rng_draw(rng_step(rng_step(state))))
}

/// The lifetime that a state's third draw gives.
pub open spec fn drawn_life<L, B: Fn(u32) -> L>(state: u64, lifetime: B) -> L {
    answer1(lifetime, rng_draw(rng_step(rng_step(rng_step(state)))))
}

/// The place and the lifetime of a state are answers that the kernels gave.
pub open spec fn spawn_made<P, L, A: Fn(u32, u32) -> P, B: Fn(u32) -> L>(
    state: u64,
    place: A,
    lifetime: B,
) -> bool {
    &&& answered2(place, rng_draw(rng_step(state)), rng_draw(rng_step(rng_step(state))))
    &&& answered1(lifetime, rng_draw(rng_step(rng_step(rng_step(state)))))
}

proof fn lemma_ring_slot(head: int, age: int)
    requires
        0 <= head < TRAIL_CAP,
        0 <= age < TRAIL_CAP,
    ensures
        0 <= ring_slot(head, age) < TRAIL_CAP,
        ring_slot(head, age) == (if age <= head {
            head - age
        } else {
            head + TRAIL_CAP - age
        }),
{
}

proof fn lemma_same_ring_same_past<P: Copy, L: Copy>(
    a: FlowParticles<P, L>,
    b: FlowParticles<P, L>,
    i: int,
)
    requires
        a.head[i] == b.head[i],
        a.len[i] == b.len[i],
        a.head[i] < TRAIL_CAP,
        a.len[i] <= TRAIL_CAP,
        a.ring(i) == b.ring(i),
    ensures
        a.same_trail(b, i),
{
    assert forall|age: int| 0 <= age < a.len[i] implies a.past(i)[age] == b.past(i)[age] by {
        lemma_ring_slot(a.head[i] as int, age);
        let slot = ring_slot(a.head[i] as int, age);
        assert(a.past(i)[age] == a.ring(i)[slot]);
        assert(b.past(i)[age] == b.ring(i)[slot]);
    }
    assert(a.past(i) =~= b.past(i));
}

impl<P: Copy, L: Copy> FlowParticles<P, L> {
    /// Every particle has its life and its ring, with at least one sample.
    pub open spec fn wf(&self) -> bool {
        let n = self.pos.len();
        &&& self.life.len() == n
        &&& self.head.len() == n
        &&& self.len.len() == n
        &&& self.trail.len() == TRAIL_CAP * n
        &&& TRAIL_CAP * n <= usize::MAX
        &&& forall|i: int| 0 <= i < n ==> (#[trigger] self.head[i]) < TRAIL_CAP
        &&& forall|i: int| 0 <= i < n ==> 1 <= (#[trigger] self.len[i]) <= TRAIL_CAP
        &&& self.clock.wf()
    }

    /// The trail of particle `i`, newest sample first.
    pub open spec fn past(&self, i: int) -> Seq<P> {
        history(self.trail@, self.head[i], self.len[i], i)
    }

    /// The ring of particle `i`, slot by slot.
    pub open spec fn ring(&self, i: int) -> Seq<P> {
        Seq::new(TRAIL_CAP as nat, |slot: int| self.trail@[TRAIL_CAP * i + slot])
    }

    /// The trail of particle `i` is as it was, slot by slot.
    pub open spec fn same_trail(&self, was: Self, i: int) -> bool {
        &&& self.head[i] == was.head[i]
        &&& self.len[i] == was.len[i]
        &&& self.ring(i) == was.ring(i)
        &&& self.past(i) == was.past(i)
    }

    /// Particle `i` has recorded the samples of its way from `a` to `b`.
    pub open spec fn recorded_from<S: Fn(P, P, usize, usize) -> P>(
        &self,
        was: Self,
        i: int,
        a: P,
        b: P,
        sample: S,
        n: usize,
        k: nat,
    ) -> bool {
        &&& self.past(i) == recorded_way(was.past(i), a, b, sample, n, k)
        &&& self.head[i] as int == (was.head[i] + k) % TRAIL_CAP as int
        &&& self.ring(i) == ring_way(was.ring(i), was.head[i] as int, a, b, sample, n, k)
        &&& way_made(a, b, sample, n, k)
    }

    /// Particle `i` has moved on from where it was, and has recorded its way
    /// unless it is gone.
    pub open spec fn moved_from<M: Fn(P, L) -> (P, L, bool), S: Fn(P, P, usize, usize) -> P>(
        &self,
        was: Self,
        i: int,
        advance: M,
        sample: S,
        records: usize,
    ) -> bool {
        let next = answer2(advance, was.pos[i], was.life[i]);
        &&& answered2(advance, was.pos[i], was.life[i])
        &&& self.pos[i] == next.0
        &&& self.life[i] == next.1
        &&& next.2 ==> self.same_trail(was, i)
        &&& !next.2 ==> self.recorded_from(
            was,
            i,
            was.pos[i],
            next.0,
            sample,
            records,
            records as nat,
        )
    }

    /// Particle `i` stands where a state of the generator puts it, and its trail
    /// is that place, in the first slot of its ring.
    pub open spec fn stands_anew<A: Fn(u32, u32) -> P, B: Fn(u32) -> L>(
        &self,
        state: u64,
        i: int,
        place: A,
        lifetime: B,
    ) -> bool {
        &&& spawn_made(state, place, lifetime)
        &&& self.pos[i] == drawn_place(state, place)
        &&& self.life[i] == drawn_life(state, lifetime)
        &&& self.head[i] == 0
        &&& self.len[i] == 1
        &&& self.trail[TRAIL_CAP * i] == self.pos[i]
        &&& self.past(i) == seq![self.pos[i]]
    }

    /// Particle `i` has come back where a state of the generator puts it; the
    /// other slots of its ring are left.
    pub open spec fn respawned_from<A: Fn(u32, u32) -> P, B: Fn(u32) -> L>(
        &self,
        was: Self,
        state: u64,
        i: int,
        place: A,
        lifetime: B,
    ) -> bool {
        &&& self.stands_anew(state, i, place, lifetime)
        &&& self.ring(i) == was.ring(i).update(0, self.pos[i])
    }

    /// Particle `i` has come where a state of the generator puts it, with a ring
    /// that is blank otherwise.
    pub open spec fn spawned_at<A: Fn(u32, u32) -> P, B: Fn(u32) -> L>(
        &self,
        state: u64,
        i: int,
        blank: P,
        place: A,
        lifetime: B,
    ) -> bool {
        &&& self.stands_anew(state, i, place, lifetime)
        &&& self.ring(i) == fresh_ring(self.pos[i], blank)
    }

    /// Particle `i` is as it was.
    pub open spec fn unmoved(&self, was: Self, i: int) -> bool {
        &&& self.same_trail(was, i)
        &&& self.pos[i] == was.pos[i]
        &&& self.life[i] == was.life[i]
    }

    /// No particles yet.
    pub fn new() -> (particles: Self)
        ensures
            particles.wf(),
            particles.pos.len() == 0,
            particles.rng.state == spread_seed(PARTICLE_SEED),
            particles.clock.acc == 0,
    {
        FlowParticles {
            pos: Vec::new(),
            life: Vec::new(),
            trail: Vec::new(),
            head: Vec::new(),
            len: Vec::new(),
            rng: Rng::spread(PARTICLE_SEED),
            clock: RecordClock { acc: 0 },
        }
    }

    /// How many particles there are.
    pub fn count(&self) -> (n: usize)
        ensures
            n == self.pos.len(),
    {
        self.pos.len()
    }

    /// The trail of a particle, newest sample first.
    pub fn trail_iter(&self, i: usize) -> (samples: Vec<P>)
        requires
            self.wf(),
            i < self.pos.len(),
        ensures
            samples@ == self.past(i as int),
    {
        let head: usize = self.head[i] as usize;
        let len: usize = self.len[i] as usize;
        let mut samples: Vec<P> = Vec::new();
        let mut age: usize = 0;
        while age < len
            invariant
                age <= len,
                self.wf(),
                i < self.pos.len(),
                head == self.head[i as int],
                len == self.len[i as int],
                1 <= len <= TRAIL_CAP,
                head < TRAIL_CAP,
                samples@ == self.past(i as int).take(age as int),
            decreases len - age,
        {
            proof {
                lemma_ring_slot(head as int, age as int);
            }
            let slot: usize = (head + TRAIL_CAP - age) % TRAIL_CAP;
            samples.push(self.trail[i * TRAIL_CAP + slot]);
            age += 1;
            assert(samples@ =~= self.past(i as int).take(age as int));
        }
        assert(samples@ =~= self.past(i as int));
        samples
    }

    /// Drop all particles. The generator goes on.
    pub fn clear(&mut self)
        ensures
            final(self).wf(),
            final(self).pos.len() == 0,
            final(self).rng == old(self).rng,
            final(self).clock.acc == 0,
    {
        self.pos.clear();
        self.life.clear();
        self.trail.clear();
        self.head.clear();
        self.len.clear();
        self.clock = RecordClock { acc: 0 };
    }

    /// Add a particle at a drawn place with a drawn lifetime. Its trail is that
    /// place.
    fn spawn_one<A: Fn(u32, u32) -> P, B: Fn(u32) -> L>(
        &mut self,
        blank: P,
        place: &A,
        lifetime: &B,
    )
        requires
            old(self).wf(),
            TRAIL_CAP * (old(self).pos.len() + 1) <= usize::MAX,
            single_valued2(*place),
            single_valued1(*lifetime),
            forall|a: u32, b: u32| place.requires((a, b)),
            forall|a: u32| lifetime.requires((a,)),
        ensures
            final(self).wf(),
            final(self).pos@ == old(self).pos@.push(drawn_place(old(self).rng.state, *place)),
            final(self).life@ == old(self).life@.push(drawn_life(old(self).rng.state, *lifetime)),
            final(self).rng.state == rng_step(rng_step(rng_step(old(self).rng.state))),
            final(self).clock == old(self).clock,
            final(self).trail@ == old(self).trail@ + fresh_ring(
                drawn_place(old(self).rng.state, *place),
                blank,
            ),
            forall|i: int|
                0 <= i < old(self).pos.len() ==> #[trigger] final(self).unmoved(*old(self), i),
            final(self).spawned_at(
                old(self).rng.state,
                old(self).pos.len() as int,
                blank,
                *place,
                *lifetime,
            ),
    {
        let across: u32 = self.rng.draw();
        let down: u32 = self.rng.draw();
        let pos: P = place(across, down);
        let span: u32 = self.rng.draw();
        let life: L = lifetime(span);
        proof {
            lemma_answer2(*place, across, down, pos);
            lemma_answer1(*lifetime, span, life);
        }
        let ghost n = self.pos.len() as int;
        let ghost before = self.trail@;
        self.pos.push(pos);
        self.life.push(life);
        self.trail.push(pos);
        let mut k: usize = 1;
        while k < TRAIL_CAP
            invariant
                1 <= k <= TRAIL_CAP,
                self.trail@ == before + fresh_ring(pos, blank).take(k as int),
                self.pos@ == old(self).pos@.push(pos),
                self.life@ == old(self).life@.push(life),
                self.head == old(self).head,
                self.len == old(self).len,
                self.rng.state == rng_step(rng_step(rng_step(old(self).rng.state))),
                self.clock == old(self).clock,
            decreases TRAIL_CAP - k,
        {
            self.trail.push(blank);
            k += 1;
            assert(self.trail@ =~= before + fresh_ring(pos, blank).take(k as int));
        }
        assert(self.trail@ =~= before + fresh_ring(pos, blank));
        self.head.push(0);
        self.len.push(1);
        proof {
            assert forall|i: int| 0 <= i < n implies #[trigger] self.unmoved(*old(self), i) by {
                assert(TRAIL_CAP * (i + 1) <= before.len());
                assert(self.ring(i) =~= old(self).ring(i));
                lemma_same_ring_same_past(*self, *old(self), i);
            }
            assert(self.ring(n) =~= fresh_ring(pos, blank));
            assert(ring_slot(0, 0) == 0);
            assert(self.past(n) =~= seq![pos]);
        }
    }

    /// Bring particle `i` back at a drawn place with a drawn lifetime. Its trail
    /// starts over, so that no streak crosses the screen.
    fn respawn<A: Fn(u32, u32) -> P, B: Fn(u32) -> L>(&mut self, i: usize, place: &A, lifetime: &B)
        requires
            old(self).wf(),
            i < old(self).pos.len(),
            single_valued2(*place),
            single_valued1(*lifetime),
            forall|a: u32, b: u32| place.requires((a, b)),
            forall|a: u32| lifetime.requires((a,)),
        ensures
            final(self).wf(),
            final(self).pos@ == old(self).pos@.update(
                i as int,
                drawn_place(old(self).rng.state, *place),
            ),
            final(self).life@ == old(self).life@.update(
                i as int,
                drawn_life(old(self).rng.state, *lifetime),
            ),
            final(self).rng.state == rng_step(rng_step(rng_step(old(self).rng.state))),
            final(self).clock == old(self).clock,
            final(self).respawned_from(
                *old(self),
                old(self).rng.state,
                i as int,
                *place,
                *lifetime,
            ),
            forall|k: int|
                0 <= k < old(self).pos.len() && k != i ==> #[trigger] final(self).unmoved(
                    *old(self),
                    k,
                ),
    {
        let across: u32 = self.rng.draw();
        let down: u32 = self.rng.draw();
        let pos: P = place(across, down);
        self.pos.set(i, pos);
        let span: u32 = self.rng.draw();
        let life: L = lifetime(span);
        proof {
            lemma_answer2(*place, across, down, pos);
            lemma_answer1(*lifetime, span, life);
        }
        self.life.set(i, life);
        self.trail.set(i * TRAIL_CAP, pos);
        self.head.set(i, 0);
        self.len.set(i, 1);
        proof {
            assert(ring_slot(0, 0) == 0);
            assert(self.past(i as int) =~= seq![pos]);
            assert(self.ring(i as int) =~= old(self).ring(i as int).update(0, pos));
            assert forall|k: int| 0 <= k < old(self).pos.len() && k != i implies
                #[trigger] self.unmoved(*old(self), k) by {
                assert(self.ring(k) =~= old(self).ring(k));
                lemma_same_ring_same_past(*self, *old(self), k);
            }
        }
    }

    /// Bring the particles to `n`: spawn those missing, drop those past it.
    pub fn resize<A: Fn(u32, u32) -> P, B: Fn(u32) -> L>(
        &mut self,
        n: usize,
        blank: P,
        place: &A,
        lifetime: &B,
    )
        requires
            old(self).wf(),
            TRAIL_CAP * n <= usize::MAX,
            single_valued2(*place),
            single_valued1(*lifetime),
            forall|a: u32, b: u32| place.requires((a, b)),
            forall|a: u32| lifetime.requires((a,)),
        ensures
            final(self).wf(),
            final(self).pos.len() == n,
            final(self).clock == old(self).clock,
            forall|i: int|
                #![trigger final(self).pos[i]]
                #![trigger final(self).past(i)]
                0 <= i < n && i < old(self).pos.len() ==> final(self).unmoved(*old(self), i),
            forall|i: int|
                #![trigger final(self).pos[i]]
                #![trigger final(self).past(i)]
                old(self).pos.len() <= i < n ==> final(self).spawned_at(
                    spawn_state(old(self).rng.state, (i - old(self).pos.len()) as nat),
                    i,
                    blank,
                    *place,
                    *lifetime,
                ),
            final(self).rng.state == (if old(self).pos.len() < n {
                spawn_state(old(self).rng.state, (n - old(self).pos.len()) as nat)
            } else {
                old(self).rng.state
            }),
    {
        let ghost first = self.pos.len() as int;
        while self.pos.len() < n
            invariant
                self.wf(),
                old(self).wf(),
                TRAIL_CAP * n <= usize::MAX,
                first == old(self).pos.len(),
                first <= self.pos.len(),
                self.pos.len() <= n || self.pos.len() == first,
                self.clock == old(self).clock,
                single_valued2(*place),
                single_valued1(*lifetime),
                forall|a: u32, b: u32| place.requires((a, b)),
                forall|a: u32| lifetime.requires((a,)),
                self.rng.state == spawn_state(old(self).rng.state, (self.pos.len() - first) as nat),
                forall|i: int| 0 <= i < first ==> #[trigger] self.unmoved(*old(self), i),
                forall|i: int|
                    first <= i < self.pos.len() ==> #[trigger] self.spawned_at(
                        spawn_state(old(self).rng.state, (i - first) as nat),
                        i,
                        blank,
                        *place,
                        *lifetime,
                    ),
            decreases n - self.pos.len(),
        {
            let ghost before = *self;
            self.spawn_one(blank, place, lifetime);
            proof {
                assert forall|i: int| 0 <= i < first implies #[trigger] self.unmoved(
                    *old(self),
                    i,
                ) by {
                    assert(self.unmoved(before, i));
                    assert(before.unmoved(*old(self), i));
                }
                assert forall|i: int| first <= i < self.pos.len() implies #[trigger] self.spawned_at(
                    spawn_state(old(self).rng.state, (i - first) as nat),
                    i,
                    blank,
                    *place,
                    *lifetime,
                ) by {
                    let state = spawn_state(old(self).rng.state, (i - first) as nat);
                    if i < before.pos.len() {
                        assert(self.unmoved(before, i));
                        assert(before.spawned_at(state, i, blank, *place, *lifetime));
                        assert(self.trail[TRAIL_CAP * i] == self.ring(i)[0]);
                        assert(before.trail[TRAIL_CAP * i] == before.ring(i)[0]);
                    }
                }
            }
        }
        if self.pos.len() > n {
            let ghost all = *self;
            self.pos.truncate(n);
            self.life.truncate(n);
            self.trail.truncate(n * TRAIL_CAP);
            self.head.truncate(n);
            self.len.truncate(n);
            proof {
                assert forall|i: int| 0 <= i < n implies #[trigger] self.unmoved(all, i) by {
                    assert(self.ring(i) =~= all.ring(i));
                    lemma_same_ring_same_past(*self, all, i);
                }
                assert forall|i: int| 0 <= i < n implies #[trigger] self.unmoved(
                    *old(self),
                    i,
                ) by {
                    assert(self.unmoved(all, i));
                    assert(all.unmoved(*old(self), i));
                }
            }
        }
    }

    /// Record a sample on the trail of particle `i`.
    fn record(&mut self, i: usize, sample: P)
        requires
            old(self).wf(),
            i < old(self).pos.len(),
        ensures
            final(self).wf(),
            final(self).pos == old(self).pos,
            final(self).life == old(self).life,
            final(self).rng == old(self).rng,
            final(self).clock == old(self).clock,
            final(self).past(i as int) == recorded(old(self).past(i as int), sample),
            final(self).head[i as int] as int == (old(self).head[i as int] + 1) % TRAIL_CAP as int,
            final(self).ring(i as int) == old(self).ring(i as int).update(
                final(self).head[i as int] as int,
                sample,
            ),
            forall|k: int|
                0 <= k < old(self).pos.len() && k != i ==> #[trigger] final(self).same_trail(
                    *old(self),
                    k,
                ),
    {
        let cap: u8 = TRAIL_CAP as u8;
        let head: u8 = (self.head[i] + 1) % cap;
        let ghost (was, held) = (self.head[i as int], self.len[i as int]);
        self.head.set(i, head);
        self.trail.set(i * TRAIL_CAP + head as usize, sample);
        let len: u8 = if self.len[i] + 1 < cap {
            self.len[i] + 1
        } else {
            cap
        };
        self.len.set(i, len);
        proof {
            let now = self.past(i as int);
            let then = recorded(old(self).past(i as int), sample);
            assert(now.len() == then.len());
            assert forall|age: int| 0 <= age < now.len() implies now[age] == then[age] by {
                lemma_ring_slot(head as int, age);
                if age > 0 {
                    lemma_ring_slot(was as int, age - 1);
                    assert(ring_slot(head as int, age) == ring_slot(was as int, age - 1));
                    assert(ring_slot(head as int, age) != head);
                    assert(then[age] == old(self).past(i as int)[age - 1]);
                } else {
                    assert(ring_slot(head as int, 0) == head);
                }
            }
            assert(now =~= then);
            assert(self.ring(i as int) =~= old(self).ring(i as int).update(head as int, sample));
            assert forall|k: int| 0 <= k < old(self).pos.len() && k != i implies
                #[trigger] self.same_trail(*old(self), k) by {
                assert(self.ring(k) =~= old(self).ring(k));
                lemma_same_ring_same_past(*self, *old(self), k);
            }
        }
    }

    /// Advance every particle by `dt` nanoseconds. `advance` moves one and ages
    /// it, and tells whether it is gone: too old, or off the screen. A particle
    /// that is not gone records the samples that are due, spaced along its way
    /// by `sample`. Those that are gone come back in order, from one generator.
    pub fn step<
        M: Fn(P, L) -> (P, L, bool),
        S: Fn(P, P, usize, usize) -> P,
        A: Fn(u32, u32) -> P,
        B: Fn(u32) -> L,
    >(&mut self, dt: u64, advance: &M, sample: &S, place: &A, lifetime: &B)
        requires
            old(self).wf(),
            single_valued2(*advance),
            single_valued4(*sample),
            single_valued2(*place),
            single_valued1(*lifetime),
            forall|p: P, l: L| advance.requires((p, l)),
            forall|a: P, b: P, r: usize, n: usize| 1 <= r <= n ==> sample.requires((a, b, r, n)),
            forall|a: u32, b: u32| place.requires((a, b)),
            forall|a: u32| lifetime.requires((a,)),
        ensures
            final(self).wf(),
            final(self).pos.len() == old(self).pos.len(),
            old(self).pos.len() == 0 ==> final(self).clock == old(self).clock,
            old(self).pos.len() > 0 ==> final(self).clock.acc as int == old(self).clock.gathered(dt)
                % SECOND as int,
            final(self).rng.state == state_after(
                gone_after(old(self).pos@, old(self).life@, *advance),
                old(self).rng.state,
                old(self).pos.len() as int,
            ),
            forall|i: int|
                0 <= i < old(self).pos.len() ==> answered2(
                    *advance,
                    #[trigger] old(self).pos[i],
                    old(self).life[i],
                ),
            forall|i: int|
                #![trigger final(self).pos[i]]
                #![trigger final(self).past(i)]
                0 <= i < old(self).pos.len() ==> if answer2(
                    *advance,
                    old(self).pos[i],
                    old(self).life[i],
                ).2 {
                    final(self).respawned_from(
                        *old(self),
                        state_after(
                            gone_after(old(self).pos@, old(self).life@, *advance),
                            old(self).rng.state,
                            i,
                        ),
                        i,
                        *place,
                        *lifetime,
                    )
                } else {
                    final(self).moved_from(
                        *old(self),
                        i,
                        *advance,
                        *sample,
                        old(self).clock.due(dt) as usize,
                    )
                },
    {
        let n: usize = self.pos.len();
        if n == 0 {
            return;
        }
        let records: usize = self.clock.advance(dt);
        let ghost out = gone_after(old(self).pos@, old(self).life@, *advance);
        let mut gone: Vec<bool> = Vec::new();
        let mut i: usize = 0;
        while i < n
            invariant
                i <= n,
                n == old(self).pos.len(),
                n == self.pos.len(),
                self.wf(),
                old(self).wf(),
                records == old(self).clock.due(dt),
                self.clock.acc as int == old(self).clock.gathered(dt) % SECOND as int,
                self.rng == old(self).rng,
                single_valued2(*advance),
                single_valued4(*sample),
                forall|p: P, l: L| advance.requires((p, l)),
                forall|a: P, b: P, r: usize, m: usize|
                    1 <= r <= m ==> sample.requires((a, b, r, m)),
                out == gone_after(old(self).pos@, old(self).life@, *advance),
                gone@ == out.take(i as int),
                forall|k: int|
                    i <= k < n ==> #[trigger] self.unmoved(*old(self), k),
                forall|k: int|
                    0 <= k < i ==> #[trigger] self.moved_from(*old(self), k, *advance, *sample, records),
            decreases n - i,
        {
            assert(self.unmoved(*old(self), i as int));
            let from: P = self.pos[i];
            let (to, left, off): (P, L, bool) = advance(from, self.life[i]);
            proof {
                lemma_answer2(*advance, from, self.life[i as int], (to, left, off));
            }
            let ghost before = *self;
            self.pos.set(i, to);
            self.life.set(i, left);
            gone.push(off);
            assert(gone@ =~= out.take(i + 1));
            assert forall|k: int| 0 <= k < n implies #[trigger] self.same_trail(before, k) by {
                assert(self.ring(k) =~= before.ring(k));
            }
            let ghost placed = *self;
            if !off {
                self.record_way(i, from, to, records, sample);
            }
            assert forall|k: int| 0 <= k < n && k != i implies #[trigger] self.unmoved(
                before,
                k,
            ) by {
                assert(placed.same_trail(before, k));
                assert(!off ==> self.same_trail(placed, k));
            }
            assert forall|k: int| 0 <= k < i implies #[trigger] self.moved_from(
                *old(self),
                k,
                *advance,
                *sample,
                records,
            ) by {
                assert(before.moved_from(*old(self), k, *advance, *sample, records));
                assert(self.unmoved(before, k));
            }
            assert(placed.same_trail(before, i as int));
            assert(self.moved_from(*old(self), i as int, *advance, *sample, records));
            assert forall|k: int| i < k < n implies #[trigger] self.unmoved(*old(self), k) by {
                assert(self.unmoved(before, k));
                assert(before.unmoved(*old(self), k));
            }
            i += 1;
        }
        let ghost moved = *self;
        assert(gone@ =~= out);
        let mut j: usize = 0;
        while j < n
            invariant
                j <= n,
                n == self.pos.len(),
                n == moved.pos.len(),
                self.wf(),
                moved.wf(),
                self.clock == moved.clock,
                out.len() == n,
                gone@ == out,
                single_valued2(*place),
                single_valued1(*lifetime),
                forall|a: u32, b: u32| place.requires((a, b)),
                forall|a: u32| lifetime.requires((a,)),
                self.rng.state == state_after(out, moved.rng.state, j as int),
                forall|k: int|
                    0 <= k < n && (k >= j || !out[k]) ==> #[trigger] self.unmoved(moved, k),
                forall|k: int|
                    0 <= k < j && out[k] ==> #[trigger] self.respawned_from(
                        moved,
                        state_after(out, moved.rng.state, k),
                        k,
                        *place,
                        *lifetime,
                    ),
            decreases n - j,
        {
            let ghost before = *self;
            assert(before.unmoved(moved, j as int));
            if gone[j] {
                self.respawn(j, place, lifetime);
            }
            assert forall|k: int| 0 <= k < n && k != j implies #[trigger] self.unmoved(
                before,
                k,
            ) by {}
            assert forall|k: int| 0 <= k < j && out[k] implies #[trigger] self.respawned_from(
                moved,
                state_after(out, moved.rng.state, k),
                k,
                *place,
                *lifetime,
            ) by {
                assert(before.respawned_from(
                    moved,
                    state_after(out, moved.rng.state, k),
                    k,
                    *place,
                    *lifetime,
                ));
                assert(self.unmoved(before, k));
                assert(self.trail[TRAIL_CAP * k] == self.ring(k)[0]);
                assert(before.trail[TRAIL_CAP * k] == before.ring(k)[0]);
            }
            assert forall|k: int| 0 <= k < n && (k > j || !out[k]) implies #[trigger] self.unmoved(
                moved,
                k,
            ) by {
                assert(before.unmoved(moved, k));
                assert(k != j ==> self.unmoved(before, k));
            }
            j += 1;
        }
        proof {
            assert forall|k: int| 0 <= k < n implies if #[trigger] out[k] {
                self.respawned_from(
                    *old(self),
                    state_after(out, old(self).rng.state, k),
                    k,
                    *place,
                    *lifetime,
                )
            } else {
                self.moved_from(*old(self), k, *advance, *sample, records)
            } by {
                assert(moved.moved_from(*old(self), k, *advance, *sample, records));
                if !out[k] {
                    assert(self.unmoved(moved, k));
                } else {
                    assert(moved.same_trail(*old(self), k));
                    assert(self.respawned_from(
                        moved,
                        state_after(out, moved.rng.state, k),
                        k,
                        *place,
                        *lifetime,
                    ));
                }
            }
            assert forall|k: int| 0 <= k < n implies answered2(
                *advance,
                #[trigger] old(self).pos[k],
                old(self).life[k],
            ) by {
                assert(moved.moved_from(*old(self), k, *advance, *sample, records));
            }
            assert forall|k: int| 0 <= k < n implies out[k] == #[trigger] answer2(
                *advance,
                old(self).pos[k],
                old(self).life[k],
            ).2 by {}
        }
    }

    /// Record the samples of a particle's way.
    fn record_way<S: Fn(P, P, usize, usize) -> P>(
        &mut self,
        i: usize,
        from: P,
        to: P,
        records: usize,
        sample: &S,
    )
        requires
            old(self).wf(),
            i < old(self).pos.len(),
            single_valued4(*sample),
            forall|a: P, b: P, r: usize, n: usize| 1 <= r <= n ==> sample.requires((a, b, r, n)),
        ensures
            final(self).wf(),
            final(self).pos == old(self).pos,
            final(self).life == old(self).life,
            final(self).rng == old(self).rng,
            final(self).clock == old(self).clock,
            final(self).recorded_from(
                *old(self),
                i as int,
                from,
                to,
                *sample,
                records,
                records as nat,
            ),
            forall|k: int|
                0 <= k < old(self).pos.len() && k != i ==> #[trigger] final(self).same_trail(
                    *old(self),
                    k,
                ),
    {
        let mut r: usize = 0;
        while r < records
            invariant
                r <= records,
                i < self.pos.len(),
                self.wf(),
                self.pos == old(self).pos,
                self.life == old(self).life,
                self.rng == old(self).rng,
                self.clock == old(self).clock,
                single_valued4(*sample),
                forall|a: P, b: P, q: usize, n: usize|
                    1 <= q <= n ==> sample.requires((a, b, q, n)),
                old(self).wf(),
                self.recorded_from(
                    *old(self),
                    i as int,
                    from,
                    to,
                    *sample,
                    records,
                    r as nat,
                ),
                forall|k: int|
                    0 <= k < old(self).pos.len() && k != i ==> #[trigger] self.same_trail(
                        *old(self),
                        k,
                    ),
            decreases records - r,
        {
            let ghost before = *self;
            r += 1;
            let point: P = sample(from, to, r, records);
            proof {
                lemma_answer4(*sample, from, to, r, records, point);
            }
            self.record(i, point);
            proof {
                let head = old(self).head[i as int] as int;
                assert(((head + (r - 1)) % TRAIL_CAP as int + 1) % TRAIL_CAP as int == (head + r)
                    % TRAIL_CAP as int);
                assert forall|k: int| 0 <= k < old(self).pos.len() && k != i implies
                    #[trigger] self.same_trail(*old(self), k) by {
                    assert(self.same_trail(before, k));
                    assert(before.same_trail(*old(self), k));
                }
            }
        }
    }
}

/// A trail grows by one sample at a time until it is full, and the newest sample
/// is the last one recorded.
pub proof fn law_trails_grow_until_full<P, S: Fn(P, P, usize, usize) -> P>(
    past: Seq<P>,
    a: P,
    b: P,
    sample: S,
    n: usize,
    k: nat,
)
    requires
        1 <= past.len() <= TRAIL_CAP,
    ensures
        recorded_way(past, a, b, sample, n, k).len() == crate::arith::least(
            (past.len() + k) as int,
            TRAIL_CAP as int,
        ),
        k > 0 ==> recorded_way(past, a, b, sample, n, k)[0] == answer4(
            sample,
            a,
            b,
            k as usize,
            n,
        ),
        k == 0 ==> recorded_way(past, a, b, sample, n, k) == past,
    decreases k,
{
    if k > 0 {
        law_trails_grow_until_full(past, a, b, sample, n, (k - 1) as nat);
    }
}

/// Particle `i` has stayed through a frame of `dt` nanoseconds.
pub open spec fn stayed<
    P: Copy,
    L: Copy,
    M: Fn(P, L) -> (P, L, bool),
    S: Fn(P, P, usize, usize) -> P,
>(
    was: FlowParticles<P, L>,
    now: FlowParticles<P, L>,
    i: int,
    dt: u64,
    advance: M,
    sample: S,
) -> bool {
    &&& now.moved_from(was, i, advance, sample, was.clock.due(dt) as usize)
    &&& !answer2(advance, was.pos[i], was.life[i]).2
    &&& now.clock.acc == was.clock.gathered(dt) % SECOND as int
}

/// Particle `i` has stayed through frames of these lengths, each with its own
/// way to advance: `states` are the particles before, between and after them.
pub open spec fn stayed_through<
    P: Copy,
    L: Copy,
    M: Fn(P, L) -> (P, L, bool),
    S: Fn(P, P, usize, usize) -> P,
>(
    states: Seq<FlowParticles<P, L>>,
    i: int,
    frames: Seq<u64>,
    advances: Seq<M>,
    sample: S,
) -> bool {
    &&& states.len() == frames.len() + 1
    &&& advances.len() == frames.len()
    &&& forall|k: int|
        0 <= k < frames.len() ==> stayed(
            states[k],
            states[k + 1],
            i,
            #[trigger] frames[k],
            advances[k],
            sample,
        )
}

/// The time of all frames, in nanoseconds.
pub open spec fn total_time(frames: Seq<u64>) -> int
    decreases frames.len(),
{
    if frames.len() == 0 {
        0
    } else {
        total_time(frames.drop_last()) + frames.last()
    }
}

proof fn lemma_gathered(before: int, dt: int)
    requires
        before >= 0,
        dt >= 0,
    ensures
        ({
            let gathered = before % SECOND as int + 60 * dt;
            &&& (before + 60 * dt) / SECOND as int == before / SECOND as int + gathered
                / SECOND as int
            &&& (before + 60 * dt) % SECOND as int == gathered % SECOND as int
            &&& before / SECOND as int >= 0
            &&& gathered / SECOND as int >= 0
        }),
{
}

proof fn lemma_ring_fills(head: int, len: int, p: int, q: int)
    requires
        head >= 0,
        len >= 0,
        p >= 0,
        q >= 0,
    ensures
        ((head + p) % TRAIL_CAP as int + q) % TRAIL_CAP as int == (head + p + q) % TRAIL_CAP as int,
        ({
            let cap = TRAIL_CAP as int;
            let part = crate::arith::least(len + p, cap);
            crate::arith::least(part + crate::arith::least(q, cap), cap) == crate::arith::least(
                len + p + q,
                cap,
            )
        }),
{
}

/// What a stay leaves depends on its time alone.
#[verifier::rlimit(40)]
proof fn lemma_stay<
    P: Copy,
    L: Copy,
    M: Fn(P, L) -> (P, L, bool),
    S: Fn(P, P, usize, usize) -> P,
>(
    states: Seq<FlowParticles<P, L>>,
    i: int,
    frames: Seq<u64>,
    advances: Seq<M>,
    sample: S,
)
    requires
        states.len() > 0,
        states[0].wf(),
        0 <= i < states[0].pos.len(),
        stayed_through(states, i, frames, advances, sample),
    ensures
        ({
            let (start, end) = (states[0], states.last());
            let gathered = start.clock.acc + 60 * total_time(frames);
            let due = gathered / SECOND as int;
            &&& total_time(frames) >= 0
            &&& end.clock.acc == gathered % SECOND as int
            &&& end.past(i).len() == crate::arith::least(start.len[i] + due, TRAIL_CAP as int)
            &&& gathered <= TRAIL_CAP * SECOND ==> end.head[i] == (start.head[i] + due)
                % TRAIL_CAP as int
        }),
    decreases frames.len(),
{
    let n = frames.len() as int;
    let start = states[0];
    assert(start.past(i).len() == start.len[i]);
    if n > 0 {
        let earlier = states.drop_last();
        assert forall|k: int| 0 <= k < n - 1 implies stayed(
            earlier[k],
            earlier[k + 1],
            i,
            #[trigger] frames.drop_last()[k],
            advances.drop_last()[k],
            sample,
        ) by {
            assert(frames.drop_last()[k] == frames[k]);
        }
        lemma_stay(earlier, i, frames.drop_last(), advances.drop_last(), sample);
        let (was, end) = (states[n - 1], states[n]);
        let dt = frames[n - 1];
        assert(stayed(was, end, i, dt, advances[n - 1], sample));
        let due = was.clock.due(dt);
        let a = was.pos[i];
        let b = answer2(advances[n - 1], a, was.life[i]).0;
        law_trails_grow_until_full(was.past(i), a, b, sample, due as usize, due as nat);
        let before = start.clock.acc + 60 * total_time(frames.drop_last());
        let after = start.clock.acc + 60 * total_time(frames);
        assert(after == before + 60 * dt);
        lemma_gathered(before, dt as int);
        assert(was.clock.gathered(dt) == before % SECOND as int + 60 * dt);
        let (p, q) = (before / SECOND as int, was.clock.gathered(dt) / SECOND as int);
        lemma_ring_fills(start.head[i] as int, start.len[i] as int, p, q);
        if after <= TRAIL_CAP * SECOND {
            assert(after / SECOND as int <= TRAIL_CAP);
        }
    }
}

/// Trails do not depend on the frame rate: a particle that stays has a trail as
/// long after any frames as after any others that last as long together, and so
/// has its ring's head and the clock, where no more samples were due than a trail
/// keeps.
pub proof fn law_trails_ignore_frame_rate<
    P: Copy,
    L: Copy,
    M: Fn(P, L) -> (P, L, bool),
    N: Fn(P, L) -> (P, L, bool),
    S: Fn(P, P, usize, usize) -> P,
>(
    states: Seq<FlowParticles<P, L>>,
    others: Seq<FlowParticles<P, L>>,
    i: int,
    frames: Seq<u64>,
    other_frames: Seq<u64>,
    advances: Seq<M>,
    other_advances: Seq<N>,
    sample: S,
)
    requires
        states.len() > 0,
        others.len() > 0,
        states[0] == others[0],
        states[0].wf(),
        0 <= i < states[0].pos.len(),
        stayed_through(states, i, frames, advances, sample),
        stayed_through(others, i, other_frames, other_advances, sample),
        total_time(frames) == total_time(other_frames),
    ensures
        states.last().len[i] == others.last().len[i],
        states.last().clock == others.last().clock,
        states[0].clock.acc + 60 * total_time(frames) <= TRAIL_CAP * SECOND
            ==> states.last().head[i] == others.last().head[i],
{
    lemma_stay(states, i, frames, advances, sample);
    lemma_stay(others, i, other_frames, other_advances, sample);
    assert(states.last().past(i).len() == states.last().len[i]);
    assert(others.last().past(i).len() == others.last().len[i]);
}

/// Which particles are gone when they have advanced.
pub open spec fn gone_after<P, L, M: Fn(P, L) -> (P, L, bool)>(
    pos: Seq<P>,
    life: Seq<L>,
    advance: M,
) -> Seq<bool> {
    Seq::new(pos.len(), |i: int| answer2(advance, pos[i], life[i]).2)
}

/// The generator's state after `k` particles were spawned.
pub open spec fn spawn_state(state: u64, k: nat) -> u64
    decreases k,
{
    if k == 0 {
        state
    } else {
        rng_step(rng_step(rng_step(spawn_state(state, (k - 1) as nat))))
    }
}

/// A trail keeps its samples in the order they were taken, the newest first: the
/// last way's samples from its end back to its start, and behind them the ones it
/// had, as many as there is room for.
pub proof fn law_trails_keep_their_order<P, S: Fn(P, P, usize, usize) -> P>(
    past: Seq<P>,
    a: P,
    b: P,
    sample: S,
    n: usize,
    k: nat,
    age: int,
)
    requires
        1 <= past.len() <= TRAIL_CAP,
        k <= usize::MAX,
        0 <= age < recorded_way(past, a, b, sample, n, k).len(),
    ensures
        age < k ==> recorded_way(past, a, b, sample, n, k)[age] == answer4(
            sample,
            a,
            b,
            (k - age) as usize,
            n,
        ),
        age >= k ==> recorded_way(past, a, b, sample, n, k)[age] == past[age - k],
    decreases k,
{
    if k > 0 {
        law_trails_grow_until_full(past, a, b, sample, n, (k - 1) as nat);
        if age > 0 {
            law_trails_keep_their_order(past, a, b, sample, n, (k - 1) as nat, age - 1);
        }
    }
}

/// How many of the first `k` are gone.
pub open spec fn gone_count(gone: Seq<bool>, k: int) -> nat
    decreases k,
{
    if k <= 0 {
        0
    } else {
        gone_count(gone, k - 1) + (if gone[k - 1] {
            1nat
        } else {
            0nat
        })
    }
}

/// A particle that starts anew draws behind all that did so before it, three draws
/// each, and one that goes on draws nothing.
pub proof fn law_respawns_draw_in_turn(gone: Seq<bool>, state: u64, k: int)
    requires
        0 <= k <= gone.len(),
    ensures
        state_after(gone, state, k) == spawn_state(state, gone_count(gone, k)),
        spawn_state(state, 0) == state,
        spawn_state(state, gone_count(gone, k) + 1) == rng_step(
            rng_step(rng_step(state_after(gone, state, k))),
        ),
    decreases k,
{
    if k > 0 {
        law_respawns_draw_in_turn(gone, state, k - 1);
    }
}

/// A trail gathers sixty samples a second, whatever it had gathered before, and a
/// frame takes all that are due unless they are more than a trail holds.
pub proof fn law_trails_record_at_their_rate(clock: RecordClock, dt: u64)
    requires
        clock.wf(),
    ensures
        clock.gathered(SECOND) / SECOND as int == 60,
        clock.gathered(SECOND) % SECOND as int == clock.acc,
        clock.gathered(dt) == clock.acc + 60 * dt,
        clock.due(dt) <= 20,
        clock.gathered(dt) < 21 * SECOND ==> clock.due(dt) == clock.gathered(dt) / SECOND as int,
        clock.gathered(dt) >= 20 * SECOND ==> clock.due(dt) == 20,
{
}

/// A new particle's place is drawn across first and then down, and its life third.
pub proof fn law_spawns_take_three_draws<P, L, A: Fn(u32, u32) -> P, B: Fn(u32) -> L>(
    state: u64,
    place: A,
    lifetime: B,
    across: u64,
    down: u64,
    life: u64,
)
    requires
        across == rng_step(state),
        down == rng_step(across),
        life == rng_step(down),
    ensures
        drawn_place(state, place) == answer2(place, rng_draw(across), rng_draw(down)),
        drawn_life(state, lifetime) == answer1(lifetime, rng_draw(life)),
        spawn_state(state, 1) == life,
{
    reveal_with_fuel(spawn_state, 2);
}

/// A particle that goes on leaves samples of its way, the newest at its end, and
/// none in a frame in which none is due; one that starts anew has left its trail
/// behind.
pub proof fn law_trails_follow_their_particle<
    P: Copy,
    L: Copy,
    M: Fn(P, L) -> (P, L, bool),
    S: Fn(P, P, usize, usize) -> P,
>(
    was: FlowParticles<P, L>,
    now: FlowParticles<P, L>,
    i: int,
    advance: M,
    sample: S,
    records: usize,
)
    requires
        was.wf(),
        0 <= i < was.pos.len(),
        now.moved_from(was, i, advance, sample, records),
        !answer2(advance, was.pos[i], was.life[i]).2,
    ensures
        ({
            let next = answer2(advance, was.pos[i], was.life[i]);
            &&& now.pos[i] == next.0
            &&& now.life[i] == next.1
            &&& records == 0 ==> now.past(i) == was.past(i)
            &&& records > 0 ==> now.past(i)[0] == answer4(
                sample,
                was.pos[i],
                now.pos[i],
                records,
                records,
            )
        }),
{
    assert(1 <= was.len[i] <= TRAIL_CAP);
    law_trails_grow_until_full(
        was.past(i),
        was.pos[i],
        now.pos[i],
        sample,
        records,
        records as nat,
    );
}

/// A particle that starts anew stands where its draws put it, with that place as its
/// whole trail.
pub proof fn law_new_particles_have_no_trail<
    P: Copy,
    L: Copy,
    A: Fn(u32, u32) -> P,
    B: Fn(u32) -> L,
>(now: FlowParticles<P, L>, state: u64, i: int, place: A, lifetime: B)
    requires
        now.stands_anew(state, i, place, lifetime),
    ensures
        now.past(i).len() == 1,
        now.past(i)[0] == now.pos[i],
        now.pos[i] == answer2(
            place,
            rng_draw(rng_step(state)),
            rng_draw(rng_step(rng_step(state))),
        ),
        now.life[i] == answer1(lifetime, rng_draw(rng_step(rng_step(rng_step(state))))),
{
}

/// A trail runs back from its head: the newest sample stands at the head of the
/// particle's own ring, and each older one a place further back, from the first
/// place on to the last.
pub proof fn law_trails_run_back_from_their_head<P>(
    trail: Seq<P>,
    head: u8,
    len: u8,
    i: int,
    age: int,
)
    requires
        head < 20,
        len <= 20,
        0 <= age < len,
    ensures
        history(trail, head, len, i).len() == len,
        age <= head ==> history(trail, head, len, i)[age] == trail[20 * i + head - age],
        age > head ==> history(trail, head, len, i)[age] == trail[20 * i + head + 20 - age],
{
}

} // verus!
