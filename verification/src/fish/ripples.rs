//! What disturbs the pond: ripple rings, wakes and plops, frame by frame.

use vstd::prelude::*;

use crate::fish::game::Food;
use crate::fish::water::WaterStyle;
use crate::shell::SECOND;
use crate::oracle::{
    answer2, answer3, answered1, answered2, answered3, lemma_answer1, lemma_answer2,
    lemma_answer3, single_valued1, single_valued2, single_valued3,
};

verus! {

/// How many rings live at most.
pub const RING_MAX: usize = 512;

/// Spreads the numbers of rings over their seeds.
pub const RING_SEED: u32 = 2_654_435_761;

/// The kinds of rings: what a wake, a plop and the idle pond leave.
pub const WAKE: u32 = 0;

pub const PLOP: u32 = 1;

pub const SQUIGGLE: u32 = 2;

/// The lifetimes of the kinds, in milliseconds.
pub fn life_millis(kind: u32) -> (life: u32)
    ensures
        life == (if kind == WAKE {
            900u32
        } else if kind == PLOP {
            1600u32
        } else {
            2600u32
        }),
{
    if kind == WAKE {
        900
    } else if kind == PLOP {
        1600
    } else {
        2600
    }
}

/// One ripple ring.
#[derive(Clone, Copy)]
pub struct RingEvent<P, T> {
    pub pos: P,
    /// When it is born; a plop's later rings wait for their time.
    pub born: T,
    pub amp: T,
    pub seed: u32,
    pub kind: u32,
}

/// The pool of live rings.
pub struct RippleRings<P, T> {
    pub rings: Vec<RingEvent<P, T>>,
    /// The slot that is looked at next once the pool is full.
    pub cursor: usize,
    /// How many rings there have been.
    pub counter: u32,
}

/// The ring that the pool's next spawn gives.
pub open spec fn next_ring<P, T>(counter: u32, pos: P, born: T, amp: T, kind: u32) -> RingEvent<
    P,
    T,
> {
    RingEvent {
        pos,
        born,
        amp,
        seed: counter.wrapping_add(1).wrapping_mul(RING_SEED),
        kind,
    }
}

impl<P: Copy, T: Copy> RippleRings<P, T> {
    /// The pool is not over its size.
    pub open spec fn wf(&self) -> bool {
        self.rings.len() <= RING_MAX
    }

    /// A pool without rings.
    pub fn new() -> (pool: Self)
        ensures
            pool.wf(),
            pool.rings.len() == 0,
            pool.cursor == 0,
            pool.counter == 0,
    {
        RippleRings { rings: Vec::new(), cursor: 0, counter: 0 }
    }

    /// Drop all rings. The seeds go on.
    pub fn clear(&mut self)
        ensures
            final(self).wf(),
            final(self).rings.len() == 0,
            final(self).cursor == 0,
            final(self).counter == old(self).counter,
    {
        self.rings.clear();
        self.cursor = 0;
    }

    /// Add a ring. A full pool looks at one slot after another, and only a ring
    /// past its prime gives way; else the new ring is dropped.
    pub fn spawn<F: Fn(RingEvent<P, T>) -> bool>(
        &mut self,
        pos: P,
        born: T,
        amp: T,
        kind: u32,
        past_prime: F,
    )
        requires
            old(self).wf(),
            single_valued1(past_prime),
            forall|r: RingEvent<P, T>| past_prime.requires((r,)),
        ensures
            final(self).wf(),
            final(self).counter == old(self).counter.wrapping_add(1),
            old(self).rings.len() < RING_MAX ==> {
                &&& final(self).rings@ == old(self).rings@.push(
                    next_ring(old(self).counter, pos, born, amp, kind),
                )
                &&& final(self).cursor == old(self).cursor
            },
            old(self).rings.len() == RING_MAX ==> {
                let slot = old(self).cursor as int % RING_MAX as int;
                &&& answered1(past_prime, old(self).rings[slot])
                &&& final(self).cursor == old(self).cursor.wrapping_add(1)
                &&& final(self).rings@ == (if past_prime.ensures((old(self).rings[slot],), true) {
                    old(self).rings@.update(
                        slot,
                        next_ring(old(self).counter, pos, born, amp, kind),
                    )
                } else {
                    old(self).rings@
                })
            },
    {
        self.counter = self.counter.wrapping_add(1);
        let ring: RingEvent<P, T> = RingEvent {
            pos,
            born,
            amp,
            seed: self.counter.wrapping_mul(RING_SEED),
            kind,
        };
        if self.rings.len() < RING_MAX {
            self.rings.push(ring);
            return;
        }
        let slot: usize = self.cursor % RING_MAX;
        self.cursor = self.cursor.wrapping_add(1);
        let gives_way: bool = past_prime(self.rings[slot]);
        proof {
            lemma_answer1(past_prime, self.rings[slot as int], gives_way);
        }
        if gives_way {
            self.rings.set(slot, ring);
        }
    }

    /// The rings that are still alive, in their order.
    pub fn live<F: Fn(RingEvent<P, T>) -> bool>(&self, alive: F) -> (rings: Vec<RingEvent<P, T>>)
        requires
            single_valued1(alive),
            forall|r: RingEvent<P, T>| alive.requires((r,)),
        ensures
            rings@ == living(self.rings@, alive, self.rings.len() as int),
            rings.len() <= self.rings.len(),
            forall|i: int| 0 <= i < self.rings.len() ==> answered1(alive, #[trigger] self.rings[i]),
    {
        let mut rings: Vec<RingEvent<P, T>> = Vec::new();
        let mut i: usize = 0;
        while i < self.rings.len()
            invariant
                i <= self.rings.len(),
                single_valued1(alive),
                forall|r: RingEvent<P, T>| alive.requires((r,)),
                rings@ == living(self.rings@, alive, i as int),
                rings.len() <= i,
                forall|j: int| 0 <= j < i ==> answered1(alive, #[trigger] self.rings[j]),
            decreases self.rings.len() - i,
        {
            let lives: bool = alive(self.rings[i]);
            proof {
                lemma_answer1(alive, self.rings[i as int], lives);
            }
            if lives {
                rings.push(self.rings[i]);
            }
            i += 1;
        }
        rings
    }
}

/// Those of the first `k` rings that are alive.
pub open spec fn living<P, T, F: Fn(RingEvent<P, T>) -> bool>(
    rings: Seq<RingEvent<P, T>>,
    alive: F,
    k: int,
) -> Seq<RingEvent<P, T>>
    decreases k,
{
    if k <= 0 {
        Seq::empty()
    } else if alive.ensures((rings[k - 1],), true) {
        living(rings, alive, k - 1).push(rings[k - 1])
    } else {
        living(rings, alive, k - 1)
    }
}

/// Rings whose numbers differ have different seeds.
pub proof fn law_ring_seeds_differ(a: u32, b: u32)
    requires
        a != b,
    ensures
        a.wrapping_mul(RING_SEED) != b.wrapping_mul(RING_SEED),
{
    let (x, y) = ((a as u64 * 2_654_435_761u64) as u32, (b as u64 * 2_654_435_761u64) as u32);
    assert(x == y ==> a == b) by (bit_vector)
        requires
            x == (a as u64 * 2_654_435_761u64) as u32,
            y == (b as u64 * 2_654_435_761u64) as u32,
    ;
    lemma_wrapped_product(a);
    lemma_wrapped_product(b);
}

proof fn lemma_wrapped_product(a: u32)
    ensures
        a.wrapping_mul(RING_SEED) == (a as u64 * 2_654_435_761u64) as u32,
{
    let wide = (a as u64 * 2_654_435_761u64) as u64;
    assert(a * 2_654_435_761 <= u32::MAX * 2_654_435_761) by (nonlinear_arith)
        requires
            a <= u32::MAX,
    ;
    assert(wide as u32 == wide % 0x1_0000_0000) by (bit_vector);
}

/// What a frame does to the pond.
#[derive(Clone, Copy, Debug, PartialEq, Eq, Structural)]
pub enum RippleAction {
    /// Drop all rings.
    ClearRings,
    /// Flatten the surface.
    CalmGrid,
    /// Size the surface to the window.
    ResizeGrid,
    /// Splash the surface where this fish's head is.
    SplatWake(usize),
    /// Drop a small ring where this fish's head is.
    RingWake(usize),
    /// Splash the surface where the food was eaten.
    SplatEaten(Food),
    /// Drop one of three staggered rings where the food was eaten.
    RingEaten(Food, u32),
    /// Splash the surface where the new food lands.
    SplatDrop(Food),
    /// Drop a ring where the new food lands.
    RingDrop(Food),
}

/// What the pond remembers from frame to frame.
pub struct RippleMemo<P, T> {
    /// Where the heads were.
    pub heads: Vec<P>,
    /// How far each fish has come since its last ring.
    pub travel: Vec<T>,
    pub food: Option<Food>,
    pub eaten: u32,
    pub grid_was_live: bool,
}

/// The settings and events that decide what a frame does to the pond.
#[derive(Clone, Copy, Debug, PartialEq, Eq, Structural)]
pub struct PondFrame {
    pub style: WaterStyle,
    pub water: bool,
    pub ripples: bool,
    /// Whether the water clock has started over.
    pub wrapped: bool,
    /// Whether there are rings.
    pub has_rings: bool,
    pub food: Food,
    pub eaten: u32,
}

impl PondFrame {
    /// The surface moves: the natural style shows it, and ripples are on.
    pub open spec fn grid_live(self) -> bool {
        self.water && self.ripples && self.style == WaterStyle::Natural
    }

    /// Disturbances leave a mark.
    pub open spec fn disturbs(self) -> bool {
        self.water && self.ripples
    }

    /// What happens before the disturbances: the rings of a clock that started
    /// over go, a surface that is no longer shown calms down once, a shown one
    /// is sized, and rings go where they are not shown.
    pub open spec fn upkeep(self, was_live: bool) -> Seq<RippleAction> {
        let wrap = if self.wrapped {
            seq![RippleAction::ClearRings]
        } else {
            Seq::empty()
        };
        let calm = if !self.grid_live() && was_live {
            seq![RippleAction::CalmGrid]
        } else {
            Seq::empty()
        };
        let size = if self.grid_live() {
            seq![RippleAction::ResizeGrid]
        } else {
            Seq::empty()
        };
        let hide = if (self.style == WaterStyle::Natural || !self.water) && self.has_rings
            && !self.wrapped {
            seq![RippleAction::ClearRings]
        } else {
            Seq::empty()
        };
        wrap + calm + size + hide
    }

    /// The plops of the food: a big one where it was eaten, a small one where
    /// it lands anew. Without a remembered food there is none.
    pub open spec fn plops(self, last: Option<Food>, eaten: u32) -> Seq<RippleAction> {
        match last {
            None => Seq::empty(),
            Some(last) => {
                let natural = self.style == WaterStyle::Natural;
                let big = if self.eaten == eaten {
                    Seq::empty()
                } else if natural {
                    seq![RippleAction::SplatEaten(last)]
                } else {
                    seq![
                        RippleAction::RingEaten(last, 0),
                        RippleAction::RingEaten(last, 1),
                        RippleAction::RingEaten(last, 2),
                    ]
                };
                let small = if self.food == last {
                    Seq::empty()
                } else if natural {
                    seq![RippleAction::SplatDrop(self.food)]
                } else {
                    seq![RippleAction::RingDrop(self.food)]
                };
                big + small
            },
        }
    }
}

/// What the first `k` fish do to the pond: the wakes that they leave, and how
/// far each has then come since its last ring.
pub open spec fn wakes<
    P,
    T,
    S: Fn(P, P) -> bool,
    A: Fn(T, P, P) -> T,
    D: Fn(T) -> bool,
>(
    natural: bool,
    heads: Seq<P>,
    before: Seq<P>,
    travel: Seq<T>,
    rest: T,
    stirs: S,
    farther: A,
    due: D,
    k: int,
) -> (Seq<RippleAction>, Seq<T>)
    decreases k,
{
    if k <= 0 {
        (Seq::empty(), travel)
    } else {
        let i = k - 1;
        let (actions, ways) = wakes(
            natural,
            heads,
            before,
            travel,
            rest,
            stirs,
            farther,
            due,
            i,
        );
        if !stirs.ensures((heads[i], before[i]), true) {
            (actions, ways)
        } else if natural {
            (actions.push(RippleAction::SplatWake(i as usize)), ways)
        } else {
            let way = answer3(farther, ways[i], heads[i], before[i]);
            if due.ensures((way,), true) {
                (actions.push(RippleAction::RingWake(i as usize)), ways.update(i, rest))
            } else {
                (actions, ways.update(i, way))
            }
        }
    }
}

/// What a fish does rests on answers that the kernels gave.
pub open spec fn wake_made<
    P,
    T,
    S: Fn(P, P) -> bool,
    A: Fn(T, P, P) -> T,
    D: Fn(T) -> bool,
>(natural: bool, head: P, before: P, come: T, stirs: S, farther: A, due: D) -> bool {
    &&& answered2(stirs, head, before)
    &&& answer2(stirs, head, before) && !natural ==> {
        &&& answered3(farther, come, head, before)
        &&& answered1(due, answer3(farther, come, head, before))
    }
}

/// What the first `k` fish do rests on answers that the kernels gave.
pub open spec fn wakes_made<
    P,
    T,
    S: Fn(P, P) -> bool,
    A: Fn(T, P, P) -> T,
    D: Fn(T) -> bool,
>(
    natural: bool,
    heads: Seq<P>,
    before: Seq<P>,
    travel: Seq<T>,
    rest: T,
    stirs: S,
    farther: A,
    due: D,
    k: int,
) -> bool {
    forall|i: int|
        0 <= i < k ==> {
            let ways = (#[trigger] wakes(
                natural,
                heads,
                before,
                travel,
                rest,
                stirs,
                farther,
                due,
                i,
            )).1;
            wake_made(natural, heads[i], before[i], ways[i], stirs, farther, due)
        }
}

impl<P: Copy, T: Copy> RippleMemo<P, T> {
    /// There is a way for every head.
    pub open spec fn wf(&self) -> bool {
        self.heads.len() == self.travel.len()
    }

    /// What a frame does to the pond: its upkeep and, where disturbances leave a
    /// mark, the wakes of the fish and the plops of the food.
    pub open spec fn asked<S: Fn(P, P) -> bool, A: Fn(T, P, P) -> T, D: Fn(T) -> bool>(
        &self,
        frame: PondFrame,
        heads: Seq<P>,
        rest: T,
        stirs: S,
        farther: A,
        due: D,
    ) -> Seq<RippleAction> {
        let upkeep = frame.upkeep(self.grid_was_live);
        if frame.disturbs() {
            upkeep + wakes(
                frame.style == WaterStyle::Natural,
                heads,
                self.wake_heads(heads),
                self.wake_travel(heads, rest),
                rest,
                stirs,
                farther,
                due,
                heads.len() as int,
            ).0 + frame.plops(self.food, self.eaten)
        } else {
            upkeep
        }
    }

    /// What the pond remembers after a frame: whether its surface was live and,
    /// where disturbances leave a mark, the heads, how far each fish has come, and
    /// the food.
    pub open spec fn moves_to<S: Fn(P, P) -> bool, A: Fn(T, P, P) -> T, D: Fn(T) -> bool>(
        &self,
        next: Self,
        frame: PondFrame,
        heads: Seq<P>,
        rest: T,
        stirs: S,
        farther: A,
        due: D,
    ) -> bool {
        let natural = frame.style == WaterStyle::Natural;
        let (was, travel) = (self.wake_heads(heads), self.wake_travel(heads, rest));
        let n = heads.len() as int;
        &&& next.grid_was_live == frame.grid_live()
        &&& !frame.disturbs() ==> {
            &&& next.heads.len() == 0
            &&& next.food is None
            &&& next.eaten == self.eaten
        }
        &&& frame.disturbs() ==> {
            &&& next.heads@ == heads
            &&& next.travel@ == wakes(natural, heads, was, travel, rest, stirs, farther, due, n).1
            &&& next.food == Some(frame.food)
            &&& next.eaten == frame.eaten
            &&& wakes_made(natural, heads, was, travel, rest, stirs, farther, due, n)
        }
    }

    /// Nothing is remembered yet.
    pub fn new() -> (memo: Self)
        ensures
            memo.wf(),
            memo.heads.len() == 0,
            memo.food is None,
            memo.eaten == 0,
            !memo.grid_was_live,
    {
        RippleMemo {
            heads: Vec::new(),
            travel: Vec::new(),
            food: None,
            eaten: 0,
            grid_was_live: false,
        }
    }

    /// The heads that the wakes of `heads` are measured from: the remembered
    /// ones, or `heads` themselves where their number has changed.
    pub open spec fn wake_heads(&self, heads: Seq<P>) -> Seq<P> {
        if self.heads.len() == heads.len() {
            self.heads@
        } else {
            heads
        }
    }

    /// The ways that go with `wake_heads`.
    pub open spec fn wake_travel(&self, heads: Seq<P>, rest: T) -> Seq<T> {
        if self.heads.len() == heads.len() {
            self.travel@
        } else {
            Seq::new(heads.len(), |_i: int| rest)
        }
    }

    /// One frame of the pond. `stirs` tells whether a head that has come from
    /// one place to another leaves a wake, `farther` adds that way to a fish's
    /// travel, and `due` tells whether the travel is enough for a ring.
    pub fn step_ripples<S: Fn(P, P) -> bool, A: Fn(T, P, P) -> T, D: Fn(T) -> bool>(
        &mut self,
        frame: PondFrame,
        heads: &Vec<P>,
        rest: T,
        stirs: S,
        farther: A,
        due: D,
    ) -> (actions: Vec<RippleAction>)
        requires
            old(self).wf(),
            single_valued2(stirs),
            single_valued3(farther),
            single_valued1(due),
            forall|a: P, b: P| stirs.requires((a, b)),
            forall|t: T, a: P, b: P| farther.requires((t, a, b)),
            forall|t: T| due.requires((t,)),
        ensures
            final(self).wf(),
            actions@ == old(self).asked(frame, heads@, rest, stirs, farther, due),
            old(self).moves_to(*final(self), frame, heads@, rest, stirs, farther, due),
    {
        let mut actions: Vec<RippleAction> = Vec::new();
        let natural: bool = frame.style == WaterStyle::Natural;
        let disturb: bool = frame.water && frame.ripples;
        let grid_live: bool = disturb && natural;
        if frame.wrapped {
            actions.push(RippleAction::ClearRings);
        }
        if !grid_live && self.grid_was_live {
            actions.push(RippleAction::CalmGrid);
        }
        if grid_live {
            actions.push(RippleAction::ResizeGrid);
        }
        if (natural || !frame.water) && frame.has_rings && !frame.wrapped {
            actions.push(RippleAction::ClearRings);
        }
        assert(actions@ =~= frame.upkeep(old(self).grid_was_live));
        self.grid_was_live = grid_live;
        if !disturb {
            self.heads.clear();
            self.travel.clear();
            self.food = None;
            return actions;
        }
        let n: usize = heads.len();
        let ghost before = self.wake_heads(heads@);
        let ghost travel = self.wake_travel(heads@, rest);
        if self.heads.len() != n {
            self.heads.clear();
            self.travel.clear();
            let mut i: usize = 0;
            while i < n
                invariant
                    i <= n,
                    n == heads.len(),
                    self.heads@ == heads@.take(i as int),
                    self.travel@ == Seq::new(i as nat, |_i: int| rest),
                    self.food == old(self).food,
                    self.eaten == old(self).eaten,
                    self.grid_was_live == frame.grid_live(),
                decreases n - i,
            {
                self.heads.push(heads[i]);
                self.travel.push(rest);
                i += 1;
                assert(self.heads@ =~= heads@.take(i as int));
                assert(self.travel@ =~= Seq::new(i as nat, |_i: int| rest));
            }
            assert(self.heads@ =~= heads@);
        }
        let ghost upkeep = actions@;
        let mut k: usize = 0;
        assert(actions@ =~= upkeep + Seq::<RippleAction>::empty());
        while k < n
            invariant
                k <= n,
                n == heads.len() == before.len() == travel.len(),
                self.heads.len() == n,
                self.travel.len() == n,
                self.food == old(self).food,
                self.eaten == old(self).eaten,
                self.grid_was_live == frame.grid_live(),
                single_valued2(stirs),
                single_valued3(farther),
                single_valued1(due),
                forall|a: P, b: P| stirs.requires((a, b)),
                forall|t: T, a: P, b: P| farther.requires((t, a, b)),
                forall|t: T| due.requires((t,)),
                forall|i: int| 0 <= i < k ==> #[trigger] self.heads[i] == heads[i],
                forall|i: int| k <= i < n ==> #[trigger] self.heads[i] == before[i],
                self.travel@ == wakes(
                    natural,
                    heads@,
                    before,
                    travel,
                    rest,
                    stirs,
                    farther,
                    due,
                    k as int,
                ).1,
                actions@ == upkeep + wakes(
                    natural,
                    heads@,
                    before,
                    travel,
                    rest,
                    stirs,
                    farther,
                    due,
                    k as int,
                ).0,
                wakes_made(
                    natural,
                    heads@,
                    before,
                    travel,
                    rest,
                    stirs,
                    farther,
                    due,
                    k as int,
                ),
            decreases n - k,
        {
            let head: P = heads[k];
            let prev: P = self.heads[k];
            let ghost so_far = wakes(
                natural,
                heads@,
                before,
                travel,
                rest,
                stirs,
                farther,
                due,
                k as int,
            ).0;
            let ghost from = self.travel@[k as int];
            let stirred: bool = stirs(head, prev);
            proof {
                lemma_answer2(stirs, head, prev, stirred);
            }
            if stirred {
                if natural {
                    actions.push(RippleAction::SplatWake(k));
                    assert(actions@ =~= upkeep + so_far.push(RippleAction::SplatWake(k)));
                } else {
                    let come: T = self.travel[k];
                    let way: T = farther(come, head, prev);
                    proof {
                        lemma_answer3(farther, come, head, prev, way);
                    }
                    let rings: bool = due(way);
                    proof {
                        lemma_answer1(due, way, rings);
                    }
                    if rings {
                        self.travel.set(k, rest);
                        actions.push(RippleAction::RingWake(k));
                        assert(actions@ =~= upkeep + so_far.push(RippleAction::RingWake(k)));
                    } else {
                        self.travel.set(k, way);
                    }
                }
            }
            assert(wake_made(natural, head, prev, from, stirs, farther, due));
            self.heads.set(k, head);
            k += 1;
        }
        let ghost stirred = actions@;
        if let Some(last) = self.food {
            if frame.eaten != self.eaten {
                if natural {
                    actions.push(RippleAction::SplatEaten(last));
                } else {
                    actions.push(RippleAction::RingEaten(last, 0));
                    actions.push(RippleAction::RingEaten(last, 1));
                    actions.push(RippleAction::RingEaten(last, 2));
                }
            }
            if frame.food != last {
                if natural {
                    actions.push(RippleAction::SplatDrop(frame.food));
                } else {
                    actions.push(RippleAction::RingDrop(frame.food));
                }
            }
        }
        assert(actions@ =~= stirred + frame.plops(old(self).food, old(self).eaten));
        self.food = Some(frame.food);
        self.eaten = frame.eaten;
        assert(self.heads@ =~= heads@);
        actions
    }
}

/// Whether the idle pond draws squiggles: with water, in the drawn styles, and
/// with the caustics dial up.
pub fn squiggles_on(style: WaterStyle, water: bool, caustics: bool) -> (on: bool)
    ensures
        on == (water && style != WaterStyle::Natural && caustics),
{
    water && style != WaterStyle::Natural && caustics
}

/// A pond that is not shown lets nothing happen but its own tidying: no
/// disturbance leaves a mark.
pub proof fn law_hidden_water_is_not_disturbed(frame: PondFrame, was_live: bool, i: int)
    requires
        !frame.water,
        0 <= i < frame.upkeep(was_live).len(),
    ensures
        !frame.disturbs(),
        frame.upkeep(was_live)[i] == RippleAction::ClearRings || frame.upkeep(was_live)[i]
            == RippleAction::CalmGrid,
{
}

/// The natural style splashes the surface and leaves no ring; the drawn styles
/// leave rings and do not touch the surface.
pub proof fn law_styles_keep_their_medium(frame: PondFrame, last: Food, eaten: u32, i: int)
    requires
        0 <= i < frame.plops(Some(last), eaten).len(),
    ensures
        frame.style == WaterStyle::Natural ==> (frame.plops(
            Some(last),
            eaten,
        )[i] is SplatEaten || frame.plops(Some(last), eaten)[i] is SplatDrop),
        frame.style != WaterStyle::Natural ==> (frame.plops(
            Some(last),
            eaten,
        )[i] is RingEaten || frame.plops(Some(last), eaten)[i] is RingDrop),
{
}

/// The action leaves a ring.
pub open spec fn is_ringing(action: RippleAction) -> bool {
    action is RingWake || action is RingEaten || action is RingDrop
}

proof fn lemma_natural_wakes<
    P,
    T,
    S: Fn(P, P) -> bool,
    A: Fn(T, P, P) -> T,
    D: Fn(T) -> bool,
>(
    heads: Seq<P>,
    before: Seq<P>,
    travel: Seq<T>,
    rest: T,
    stirs: S,
    farther: A,
    due: D,
    k: int,
)
    ensures
        forall|i: int|
            0 <= i < wakes(true, heads, before, travel, rest, stirs, farther, due, k).0.len()
                ==> (#[trigger] wakes(
                true,
                heads,
                before,
                travel,
                rest,
                stirs,
                farther,
                due,
                k,
            ).0[i]) is SplatWake,
    decreases k,
{
    if k > 0 {
        lemma_natural_wakes(heads, before, travel, rest, stirs, farther, due, k - 1);
    }
}

/// Rings are not left where they are not shown, in the natural style or in a
/// hidden pond, and those that are there go.
pub proof fn law_hidden_rings_go<
    P: Copy,
    T: Copy,
    S: Fn(P, P) -> bool,
    A: Fn(T, P, P) -> T,
    D: Fn(T) -> bool,
>(
    memo: RippleMemo<P, T>,
    frame: PondFrame,
    heads: Seq<P>,
    rest: T,
    stirs: S,
    farther: A,
    due: D,
)
    requires
        frame.style == WaterStyle::Natural || !frame.water,
    ensures
        forall|i: int|
            0 <= i < memo.asked(frame, heads, rest, stirs, farther, due).len() ==> !is_ringing(
                #[trigger] memo.asked(frame, heads, rest, stirs, farther, due)[i],
            ),
        frame.has_rings ==> memo.asked(frame, heads, rest, stirs, farther, due).contains(
            RippleAction::ClearRings,
        ),
{
    let asked = memo.asked(frame, heads, rest, stirs, farther, due);
    let upkeep = frame.upkeep(memo.grid_was_live);
    if frame.disturbs() {
        lemma_natural_wakes(
            heads,
            memo.wake_heads(heads),
            memo.wake_travel(heads, rest),
            rest,
            stirs,
            farther,
            due,
            heads.len() as int,
        );
    }
    if frame.has_rings {
        if frame.wrapped {
            assert(upkeep[0] == RippleAction::ClearRings);
            assert(asked[0] == RippleAction::ClearRings);
        } else {
            let last = upkeep.len() - 1;
            assert(upkeep[last] == RippleAction::ClearRings);
            assert(asked[last] == RippleAction::ClearRings);
        }
    }
}

/// The nanoseconds after which the water clock starts over.
pub const HOUR: u64 = 3_600_000_000_000;

/// The time of the water, in nanoseconds.
#[derive(Clone, Copy, Debug, PartialEq, Eq, Structural)]
pub struct WaterClock {
    pub now: u64,
}

impl WaterClock {
    /// The clock shows less than an hour.
    pub open spec fn wf(self) -> bool {
        self.now < HOUR
    }

    /// What the clock shows after `dt` nanoseconds.
    pub open spec fn after(self, dt: u64) -> int {
        (self.now + dt) % HOUR as int
    }

    /// Run the clock on by `dt` nanoseconds, and tell whether it has started
    /// over.
    pub fn advance(&mut self, dt: u64) -> (wrapped: bool)
        requires
            old(self).wf(),
        ensures
            final(self).wf(),
            final(self).now as int == old(self).after(dt),
            wrapped == (final(self).now < old(self).now),
    {
        let before: u64 = self.now;
        self.now = (before + dt % HOUR) % HOUR;
        self.now < before
    }
}

/// The clock starts over where a frame shorter than an hour reaches the hour.
pub proof fn law_clock_starts_over_on_the_hour(clock: WaterClock, dt: u64)
    requires
        clock.wf(),
        dt < HOUR,
    ensures
        clock.after(dt) < clock.now <==> clock.now + dt >= HOUR,
{
}

/// The steps that a surface takes at most in one frame; past them it slows down.
pub const WAVE_MAX_STEPS: u64 = 4;

/// Steps of the surface per second.
pub const WAVE_RATE: u64 = 60;

/// The time that the surface has yet to catch up with, in sixtieths of a
/// nanosecond, of which a step has as many as a second has nanoseconds.
#[derive(Clone, Copy, Debug, PartialEq, Eq, Structural)]
pub struct WaveClock {
    pub acc: u64,
}

impl WaveClock {
    /// Less than a step is left over.
    pub open spec fn wf(self) -> bool {
        self.acc < SECOND
    }

    /// The time to catch up with after `dt` nanoseconds.
    pub open spec fn owed(self, dt: u64) -> int {
        crate::arith::least(self.acc + dt * WAVE_RATE, WAVE_MAX_STEPS * SECOND)
    }

    /// The steps to take after `dt` nanoseconds.
    pub fn advance(&mut self, dt: u64) -> (steps: u64)
        requires
            old(self).wf(),
        ensures
            final(self).wf(),
            steps as int == old(self).owed(dt) / SECOND as int,
            final(self).acc as int == old(self).owed(dt) % SECOND as int,
            steps <= WAVE_MAX_STEPS,
    {
        let limit: u64 = 4_000_000_000;
        let total: u64 = if dt >= limit {
            limit
        } else {
            let sum: u64 = self.acc + dt * WAVE_RATE;
            if sum < limit {
                sum
            } else {
                limit
            }
        };
        self.acc = total % SECOND;
        total / SECOND
    }
}

/// The surface does not depend on the frame rate: while no frame is capped, two
/// frames take as many steps as one of their length.
pub proof fn law_surface_steps_ignore_frame_rate(clock: WaveClock, a: u64, b: u64)
    requires
        clock.wf(),
        a + b <= u64::MAX,
        clock.acc + (a + b) * WAVE_RATE <= WAVE_MAX_STEPS * SECOND,
    ensures
        ({
            let first = clock.owed(a) / SECOND as int;
            let middle = WaveClock { acc: (clock.owed(a) % SECOND as int) as u64 };
            let second = middle.owed(b) / SECOND as int;
            &&& first + second == clock.owed((a + b) as u64) / SECOND as int
            &&& middle.owed(b) % SECOND as int == clock.owed((a + b) as u64) % SECOND as int
        }),
{
}

/// The rings that are shown are those alive, all of them and in their order.
pub proof fn law_living_rings_are_those_alive<P, T, F: Fn(RingEvent<P, T>) -> bool>(
    rings: Seq<RingEvent<P, T>>,
    alive: F,
)
    ensures
        living(rings, alive, rings.len() as int) == rings.filter(
            |r: RingEvent<P, T>| alive.ensures((r,), true),
        ),
    decreases rings.len(),
{
    reveal(Seq::filter);
    if rings.len() > 0 {
        law_living_rings_are_those_alive(rings.drop_last(), alive);
        lemma_living_prefix(rings, alive, rings.len() - 1);
    }
}

proof fn lemma_living_prefix<P, T, F: Fn(RingEvent<P, T>) -> bool>(
    rings: Seq<RingEvent<P, T>>,
    alive: F,
    k: int,
)
    requires
        0 <= k < rings.len(),
    ensures
        living(rings.drop_last(), alive, k) == living(rings, alive, k),
    decreases k,
{
    if k > 0 {
        lemma_living_prefix(rings, alive, k - 1);
    }
}

/// A ring has the place, the time and the strength that it was asked for, and the
/// seed that its number gives it.
pub proof fn law_rings_are_as_asked<P, T>(counter: u32, pos: P, born: T, amp: T, kind: u32)
    ensures
        ({
            let ring = next_ring(counter, pos, born, amp, kind);
            &&& ring.pos == pos
            &&& ring.born == born
            &&& ring.amp == amp
            &&& ring.kind == kind
            &&& counter < u32::MAX ==> ring.seed == ((counter + 1) as u32).wrapping_mul(
                2_654_435_761,
            )
        }),
{
}

/// A bite splashes where the food was, once on a natural surface and with three
/// rings elsewhere; food that has moved splashes where it lands, once; and neither
/// where there is nothing to compare with, or nothing has changed.
pub proof fn law_bites_and_drops_splash_once(frame: PondFrame, last: Food, eaten: u32)
    ensures
        frame.plops(None, eaten).len() == 0,
        ({
            let plops = frame.plops(Some(last), eaten);
            let natural = frame.style == WaterStyle::Natural;
            let bit = frame.eaten != eaten;
            let fell = frame.food != last;
            let big: int = if !bit {
                0
            } else if natural {
                1
            } else {
                3
            };
            let small: int = if fell {
                1
            } else {
                0
            };
            &&& plops.len() == big + small
            &&& bit && natural ==> plops[0] == RippleAction::SplatEaten(last)
            &&& bit && !natural ==> plops[0] == RippleAction::RingEaten(last, 0) && plops[1]
                == RippleAction::RingEaten(last, 1) && plops[2] == RippleAction::RingEaten(last, 2)
            &&& fell && natural ==> plops.last() == RippleAction::SplatDrop(frame.food)
            &&& fell && !natural ==> plops.last() == RippleAction::RingDrop(frame.food)
        }),
{
}

/// The surface is sized while it is live, and calmed in the first frame in which it
/// no longer is; the rings go when the clock starts over and where they are not
/// shown.
pub proof fn law_upkeep_follows_the_water(frame: PondFrame, was_live: bool)
    ensures
        ({
            let upkeep = frame.upkeep(was_live);
            let live = frame.water && frame.ripples && frame.style == WaterStyle::Natural;
            let hidden = frame.style == WaterStyle::Natural || !frame.water;
            &&& upkeep.contains(RippleAction::ResizeGrid) <==> live
            &&& upkeep.contains(RippleAction::CalmGrid) <==> was_live && !live
            &&& upkeep.contains(RippleAction::ClearRings) <==> frame.wrapped || (hidden
                && frame.has_rings)
            &&& upkeep.len() <= 2 || (frame.wrapped && upkeep.len() <= 3)
            &&& frame.grid_live() == live
        }),
{
    let upkeep = frame.upkeep(was_live);
    let a: int = if frame.wrapped {
        1
    } else {
        0
    };
    if frame.wrapped {
        assert(upkeep[0] == RippleAction::ClearRings);
    }
    if !frame.grid_live() && was_live {
        assert(upkeep[a] == RippleAction::CalmGrid);
    }
    if frame.grid_live() {
        assert(upkeep[a] == RippleAction::ResizeGrid);
    }
    if (frame.style == WaterStyle::Natural || !frame.water) && frame.has_rings && !frame.wrapped {
        assert(upkeep.last() == RippleAction::ClearRings);
        assert(upkeep[upkeep.len() - 1] == RippleAction::ClearRings);
    }
}

proof fn lemma_wakes<
    P,
    T,
    S: Fn(P, P) -> bool,
    A: Fn(T, P, P) -> T,
    D: Fn(T) -> bool,
>(
    natural: bool,
    heads: Seq<P>,
    before: Seq<P>,
    travel: Seq<T>,
    rest: T,
    stirs: S,
    farther: A,
    due: D,
    k: int,
    i: int,
)
    requires
        0 <= k <= heads.len(),
        travel.len() == heads.len(),
        heads.len() <= usize::MAX,
        0 <= i < heads.len(),
    ensures
        ({
            let (actions, ways) = wakes(
                natural,
                heads,
                before,
                travel,
                rest,
                stirs,
                farther,
                due,
                k,
            );
            let stirred = stirs.ensures((heads[i], before[i]), true);
            let way = answer3(farther, travel[i], heads[i], before[i]);
            let rings = !natural && stirred && due.ensures((way,), true);
            &&& ways.len() == travel.len()
            &&& i >= k ==> ways[i] == travel[i]
            &&& actions.contains(RippleAction::SplatWake(i as usize)) <==> i < k && natural
                && stirred
            &&& actions.contains(RippleAction::RingWake(i as usize)) <==> i < k && rings
            &&& i < k && rings ==> ways[i] == rest
            &&& i < k && !natural && stirred && !rings ==> ways[i] == way
            &&& i < k && (natural || !stirred) ==> ways[i] == travel[i]
            &&& actions.len() <= k
        }),
    decreases k,
{
    if k > 0 {
        lemma_wakes(natural, heads, before, travel, rest, stirs, farther, due, k - 1, i);
        lemma_wakes(natural, heads, before, travel, rest, stirs, farther, due, k - 1, k - 1);
        let done = wakes(natural, heads, before, travel, rest, stirs, farther, due, k - 1).0;
        let all = wakes(natural, heads, before, travel, rest, stirs, farther, due, k).0;
        let splat = RippleAction::SplatWake(i as usize);
        let ring = RippleAction::RingWake(i as usize);
        assert(all == done || all == done.push(RippleAction::SplatWake((k - 1) as usize)) || all
            == done.push(RippleAction::RingWake((k - 1) as usize)));
        if all != done {
            assert(all[all.len() - 1] == all.last());
            if done.contains(splat) {
                let j = choose|j: int| 0 <= j < done.len() && done[j] == splat;
                assert(all[j] == splat);
            }
            if done.contains(ring) {
                let j = choose|j: int| 0 <= j < done.len() && done[j] == ring;
                assert(all[j] == ring);
            }
            if all.contains(splat) {
                let j = choose|j: int| 0 <= j < all.len() && all[j] == splat;
                assert(j < done.len() ==> done[j] == splat);
            }
            if all.contains(ring) {
                let j = choose|j: int| 0 <= j < all.len() && all[j] == ring;
                assert(j < done.len() ==> done[j] == ring);
            }
        }
    }
}

/// A fish that stirs the water splashes a natural surface at once; elsewhere its
/// way adds up from frame to frame, and it drops a ring and starts over when the
/// way is long enough. A fish that lies still does neither, and none does it for
/// another.
pub proof fn law_each_fish_leaves_its_own_wake<
    P,
    T,
    S: Fn(P, P) -> bool,
    A: Fn(T, P, P) -> T,
    D: Fn(T) -> bool,
>(
    natural: bool,
    heads: Seq<P>,
    before: Seq<P>,
    travel: Seq<T>,
    rest: T,
    stirs: S,
    farther: A,
    due: D,
    i: int,
)
    requires
        travel.len() == heads.len(),
        heads.len() <= usize::MAX,
        0 <= i < heads.len(),
    ensures
        ({
            let (actions, ways) = wakes(
                natural,
                heads,
                before,
                travel,
                rest,
                stirs,
                farther,
                due,
                heads.len() as int,
            );
            let stirred = stirs.ensures((heads[i], before[i]), true);
            let way = answer3(farther, travel[i], heads[i], before[i]);
            let rings = !natural && stirred && due.ensures((way,), true);
            &&& actions.contains(RippleAction::SplatWake(i as usize)) <==> natural && stirred
            &&& actions.contains(RippleAction::RingWake(i as usize)) <==> rings
            &&& rings ==> ways[i] == rest
            &&& !natural && stirred && !rings ==> ways[i] == way
            &&& natural || !stirred ==> ways[i] == travel[i]
            &&& actions.len() <= heads.len()
        }),
{
    lemma_wakes(
        natural,
        heads,
        before,
        travel,
        rest,
        stirs,
        farther,
        due,
        heads.len() as int,
        i,
    );
}

/// The surface moves sixty times a second, and never more than four times in one
/// frame: what a slow frame owes beyond that is forgotten.
pub proof fn law_surface_moves_at_its_rate(clock: WaveClock, dt: u64)
    requires
        clock.wf(),
    ensures
        clock.owed(dt) <= 4 * SECOND,
        clock.acc + 60 * dt <= 4 * SECOND ==> clock.owed(dt) == clock.acc + 60 * dt,
        clock.acc + 60 * dt >= 4 * SECOND ==> clock.owed(dt) == 4 * SECOND,
{
}

/// While the fish are as many as before, each is held against where it was and what
/// way it has come; when their number changes, each starts anew from where it is.
pub proof fn law_new_schools_leave_no_wake<P: Copy, T: Copy>(
    memo: RippleMemo<P, T>,
    heads: Seq<P>,
    rest: T,
    i: int,
)
    requires
        0 <= i < heads.len(),
    ensures
        memo.heads.len() == heads.len() ==> memo.wake_heads(heads) == memo.heads@
            && memo.wake_travel(heads, rest) == memo.travel@,
        memo.heads.len() != heads.len() ==> memo.wake_heads(heads) == heads,
        memo.heads.len() != heads.len() ==> memo.wake_travel(heads, rest).len() == heads.len()
            && memo.wake_travel(heads, rest)[i] == rest,
{
}

/// A frame asks for the upkeep first, then for the wakes, then for the splashes of
/// the food, and while the water is not disturbed for the upkeep alone.
pub proof fn law_frames_ask_in_order<
    P: Copy,
    T: Copy,
    S: Fn(P, P) -> bool,
    A: Fn(T, P, P) -> T,
    D: Fn(T) -> bool,
>(
    memo: RippleMemo<P, T>,
    frame: PondFrame,
    heads: Seq<P>,
    rest: T,
    stirs: S,
    farther: A,
    due: D,
)
    ensures
        ({
            let asked = memo.asked(frame, heads, rest, stirs, farther, due);
            let upkeep = frame.upkeep(memo.grid_was_live);
            let plops = frame.plops(memo.food, memo.eaten);
            let wakes = wakes(
                frame.style == WaterStyle::Natural,
                heads,
                memo.wake_heads(heads),
                memo.wake_travel(heads, rest),
                rest,
                stirs,
                farther,
                due,
                heads.len() as int,
            ).0;
            &&& !(frame.water && frame.ripples) ==> asked == upkeep
            &&& frame.water && frame.ripples ==> {
                &&& asked.len() == upkeep.len() + wakes.len() + plops.len()
                &&& asked.take(upkeep.len() as int) == upkeep
                &&& asked.subrange(
                    upkeep.len() as int,
                    (upkeep.len() + wakes.len()) as int,
                ) == wakes
                &&& asked.skip((upkeep.len() + wakes.len()) as int) == plops
            }
        }),
{
    let asked = memo.asked(frame, heads, rest, stirs, farther, due);
    let upkeep = frame.upkeep(memo.grid_was_live);
    let plops = frame.plops(memo.food, memo.eaten);
    let wakes = wakes(
        frame.style == WaterStyle::Natural,
        heads,
        memo.wake_heads(heads),
        memo.wake_travel(heads, rest),
        rest,
        stirs,
        farther,
        due,
        heads.len() as int,
    ).0;
    if frame.water && frame.ripples {
        assert(asked.take(upkeep.len() as int) =~= upkeep);
        assert(asked.subrange(upkeep.len() as int, (upkeep.len() + wakes.len()) as int) =~= wakes);
        assert(asked.skip((upkeep.len() + wakes.len()) as int) =~= plops);
    }
}

} // verus!
