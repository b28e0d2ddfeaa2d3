//! The pond as a whole: one frame of its clock, its rings and its surface.

use vstd::prelude::*;

use crate::fish::game::Food;
use crate::fish::ripples::{
    is_ringing, law_hidden_rings_go, next_ring, squiggles_on, PondFrame, RingEvent, RippleAction, RippleMemo, RippleRings,
    WaterClock, WaveClock, PLOP, RING_MAX, SQUIGGLE, WAKE,
};
use crate::fish::water::{
    node, splash_made, splash_nodes, splashed, stencil_at, RippleGrid, Stencil,
    WaterStyle,
};
use crate::oracle::{
    answer1, answer2, answer3, answered1, answered2, answered3, lemma_answer1, lemma_answer2,
    lemma_answer3, single_valued1, single_valued2, single_valued3,
};
use crate::shell::{ExperimentId, SECOND};

verus! {

/// The pond.
pub struct Pond<P, T, V> {
    pub clock: WaterClock,
    pub waves: WaveClock,
    pub rings: RippleRings<P, T>,
    pub grid: RippleGrid<V>,
    pub memo: RippleMemo<P, T>,
}

/// The settings and the game, as far as a frame of the pond depends on them.
#[derive(Clone, Copy, Debug, PartialEq, Eq, Structural)]
pub struct PondLook {
    pub style: WaterStyle,
    pub water: bool,
    pub ripples: bool,
    /// Whether the caustics dial is up.
    pub caustics: bool,
    pub food: Food,
    pub eaten: u32,
    /// The nodes that the window's surface has across and down.
    pub cols: usize,
    pub rows: usize,
}

/// What a frame tells of the pond.
#[derive(Clone, Copy, Debug, PartialEq, Eq, Structural)]
pub struct PondNews {
    /// Whether all rings were dropped.
    pub cleared: bool,
    /// Whether the idle pond draws squiggles.
    pub squiggles: bool,
}

/// The rings and the surface of a pond, with the time that the surface has yet to
/// catch up with.
pub struct Waters<P, T, V> {
    pub cols: int,
    pub rows: int,
    pub curr: Seq<V>,
    pub prev: Seq<V>,
    pub owed: int,
    pub rings: Seq<RingEvent<P, T>>,
    pub cursor: usize,
    pub counter: u32,
}

/// The pond after a ring was added. A full pool looks at one slot after another,
/// and only a ring past its prime gives way.
pub open spec fn ring_added<P, T, V, G: Fn(RingEvent<P, T>, u64) -> bool>(
    w: Waters<P, T, V>,
    ring: (P, T, T),
    kind: u32,
    past_prime: G,
    now: u64,
) -> Waters<P, T, V> {
    let own = next_ring(w.counter, ring.0, ring.1, ring.2, kind);
    let counter = w.counter.wrapping_add(1);
    if w.rings.len() < RING_MAX {
        Waters { rings: w.rings.push(own), counter, ..w }
    } else {
        let slot = w.cursor as int % RING_MAX as int;
        Waters {
            rings: if past_prime.ensures((w.rings[slot], now), true) {
                w.rings.update(slot, own)
            } else {
                w.rings
            },
            cursor: w.cursor.wrapping_add(1),
            counter,
            ..w
        }
    }
}

/// `past_prime` has told whether the ring in the way of a new one gives way.
pub open spec fn ring_told<P, T, V, G: Fn(RingEvent<P, T>, u64) -> bool>(
    w: Waters<P, T, V>,
    past_prime: G,
    now: u64,
) -> bool {
    w.rings.len() >= RING_MAX ==> answered2(
        past_prime,
        w.rings[w.cursor as int % RING_MAX as int],
        now,
    )
}

/// The surface after the first `k` nodes of a splash were raised.
pub open spec fn raised<V, D: Fn(RippleAction, V, usize) -> V>(
    field: Seq<V>,
    nodes: Seq<int>,
    action: RippleAction,
    deposit: D,
    k: int,
) -> Seq<V>
    decreases k,
{
    if k <= 0 {
        field
    } else {
        let done = raised(field, nodes, action, deposit, k - 1);
        done.update(
            nodes[k - 1],
            answer3(deposit, action, done[nodes[k - 1]], (k - 1) as usize),
        )
    }
}

/// The heights of the first `k` nodes of a splash are answers that `deposit` gave.
pub open spec fn raise_told<V, D: Fn(RippleAction, V, usize) -> V>(
    field: Seq<V>,
    nodes: Seq<int>,
    action: RippleAction,
    deposit: D,
    k: int,
) -> bool {
    forall|i: int|
        0 <= i < k ==> answered3(
            deposit,
            action,
            (#[trigger] raised(field, nodes, action, deposit, i))[nodes[i]],
            i as usize,
        )
}

/// The surface takes a splash: it has an inside, and the aim lies on it.
pub open spec fn is_hit<P, T, V, A: Fn(RippleAction, usize, usize) -> (usize, usize)>(
    w: Waters<P, T, V>,
    action: RippleAction,
    aim: A,
) -> bool {
    let at = answer3(aim, action, w.cols as usize, w.rows as usize);
    w.cols >= 2 && w.rows >= 2 && at.0 < w.cols && at.1 < w.rows
}

/// The nodes that a splash raises.
pub open spec fn hit_nodes<P, T, V, A: Fn(RippleAction, usize, usize) -> (usize, usize)>(
    w: Waters<P, T, V>,
    action: RippleAction,
    aim: A,
) -> Seq<int> {
    let at = answer3(aim, action, w.cols as usize, w.rows as usize);
    splash_nodes(w.cols, w.rows, at.0 as int, at.1 as int)
}

/// The pond after a splash.
pub open spec fn splash_taken<
    P,
    T,
    V,
    A: Fn(RippleAction, usize, usize) -> (usize, usize),
    D: Fn(RippleAction, V, usize) -> V,
>(w: Waters<P, T, V>, action: RippleAction, aim: A, deposit: D) -> Waters<P, T, V> {
    if is_hit(w, action, aim) {
        Waters { curr: raised(w.curr, hit_nodes(w, action, aim), action, deposit, 4), ..w }
    } else {
        w
    }
}

/// A flat surface.
pub open spec fn calmed<P, T, V>(w: Waters<P, T, V>, cols: int, rows: int, flat: V) -> Waters<
    P,
    T,
    V,
> {
    let level = Seq::new((cols * rows) as nat, |_i: int| flat);
    Waters { cols, rows, curr: level, prev: level, owed: 0, ..w }
}

/// The kind of an action's ring.
pub open spec fn ring_kind(action: RippleAction) -> u32 {
    if action is RingWake {
        WAKE
    } else {
        PLOP
    }
}

/// The action splashes the surface.
pub open spec fn is_splash(action: RippleAction) -> bool {
    action is SplatWake || action is SplatEaten || action is SplatDrop
}

/// The pond after an action. `aim` gives the cell of a splash, `deposit` a node's
/// new height, `ring` a ring's place, birth and strength, and `past_prime` whether
/// a ring gives way.
pub open spec fn acted<
    P,
    T,
    V,
    A: Fn(RippleAction, usize, usize) -> (usize, usize),
    D: Fn(RippleAction, V, usize) -> V,
    R: Fn(RippleAction, u64) -> (P, T, T),
    G: Fn(RingEvent<P, T>, u64) -> bool,
>(
    w: Waters<P, T, V>,
    action: RippleAction,
    look: PondLook,
    flat: V,
    now: u64,
    aim: A,
    deposit: D,
    ring: R,
    past_prime: G,
) -> Waters<P, T, V> {
    match action {
        RippleAction::ClearRings => Waters { rings: Seq::empty(), cursor: 0, ..w },
        RippleAction::CalmGrid => calmed(w, w.cols, w.rows, flat),
        RippleAction::ResizeGrid => if w.cols == look.cols && w.rows == look.rows {
            w
        } else {
            calmed(w, look.cols as int, look.rows as int, flat)
        },
        _ => if is_splash(action) {
            splash_taken(w, action, aim, deposit)
        } else {
            ring_added(w, answer2(ring, action, now), ring_kind(action), past_prime, now)
        },
    }
}

/// What an action does rests on answers that the kernels gave.
pub open spec fn act_told<
    P,
    T,
    V,
    A: Fn(RippleAction, usize, usize) -> (usize, usize),
    D: Fn(RippleAction, V, usize) -> V,
    R: Fn(RippleAction, u64) -> (P, T, T),
    G: Fn(RingEvent<P, T>, u64) -> bool,
>(
    w: Waters<P, T, V>,
    action: RippleAction,
    now: u64,
    aim: A,
    deposit: D,
    ring: R,
    past_prime: G,
) -> bool {
    match action {
        RippleAction::ClearRings | RippleAction::CalmGrid | RippleAction::ResizeGrid => true,
        _ => if is_splash(action) {
            w.cols >= 2 && w.rows >= 2 ==> {
                &&& answered3(aim, action, w.cols as usize, w.rows as usize)
                &&& is_hit(w, action, aim) ==> raise_told(
                    w.curr,
                    hit_nodes(w, action, aim),
                    action,
                    deposit,
                    4,
                )
            }
        } else {
            answered2(ring, action, now) && ring_told(w, past_prime, now)
        },
    }
}

/// The pond after the first `k` actions.
pub open spec fn all_acted<
    P,
    T,
    V,
    A: Fn(RippleAction, usize, usize) -> (usize, usize),
    D: Fn(RippleAction, V, usize) -> V,
    R: Fn(RippleAction, u64) -> (P, T, T),
    G: Fn(RingEvent<P, T>, u64) -> bool,
>(
    w: Waters<P, T, V>,
    actions: Seq<RippleAction>,
    look: PondLook,
    flat: V,
    now: u64,
    aim: A,
    deposit: D,
    ring: R,
    past_prime: G,
    k: int,
) -> Waters<P, T, V>
    decreases k,
{
    if k <= 0 {
        w
    } else {
        acted(
            all_acted(w, actions, look, flat, now, aim, deposit, ring, past_prime, k - 1),
            actions[k - 1],
            look,
            flat,
            now,
            aim,
            deposit,
            ring,
            past_prime,
        )
    }
}

/// What the first `k` actions do rests on answers that the kernels gave.
pub open spec fn all_told<
    P,
    T,
    V,
    A: Fn(RippleAction, usize, usize) -> (usize, usize),
    D: Fn(RippleAction, V, usize) -> V,
    R: Fn(RippleAction, u64) -> (P, T, T),
    G: Fn(RingEvent<P, T>, u64) -> bool,
>(
    w: Waters<P, T, V>,
    actions: Seq<RippleAction>,
    look: PondLook,
    flat: V,
    now: u64,
    aim: A,
    deposit: D,
    ring: R,
    past_prime: G,
    k: int,
) -> bool {
    forall|i: int|
        0 <= i < k ==> act_told(
            #[trigger] all_acted(w, actions, look, flat, now, aim, deposit, ring, past_prime, i),
            actions[i],
            now,
            aim,
            deposit,
            ring,
            past_prime,
        )
}

/// The surface after `k` steps.
pub open spec fn waved<P, T, V, F: Fn(Stencil<V>) -> V>(
    w: Waters<P, T, V>,
    next: F,
    k: nat,
) -> Waters<P, T, V>
    decreases k,
{
    if k == 0 {
        w
    } else {
        let before = waved(w, next, (k - 1) as nat);
        if w.cols < 2 || w.rows < 2 {
            before
        } else {
            Waters {
                prev: before.curr,
                curr: Seq::new(
                    (w.cols * w.rows) as nat,
                    |at: int| answer1(next, seen_at(before, at)),
                ),
                ..before
            }
        }
    }
}

/// What the nodes of a surface see.
pub open spec fn seen_at<P, T, V>(w: Waters<P, T, V>, at: int) -> Stencil<V> {
    stencil_at(w.curr, w.prev, w.cols, w.rows, at / w.cols, at % w.cols)
}

/// The next heights of all nodes are answers that `next` gave.
pub open spec fn step_told<P, T, V, F: Fn(Stencil<V>) -> V>(w: Waters<P, T, V>, next: F) -> bool {
    w.cols >= 2 && w.rows >= 2 ==> forall|at: int|
        0 <= at < w.cols * w.rows ==> answered1(next, #[trigger] seen_at(w, at))
}

/// The heights of the first `k` steps are answers that `next` gave.
pub open spec fn waves_told<P, T, V, F: Fn(Stencil<V>) -> V>(
    w: Waters<P, T, V>,
    next: F,
    k: nat,
) -> bool {
    forall|j: nat| j < k ==> step_told(#[trigger] waved(w, next, j), next)
}

/// The surface after a frame: a live one catches up with its time.
pub open spec fn caught_up<P, T, V, F: Fn(Stencil<V>) -> V>(
    w: Waters<P, T, V>,
    live: bool,
    dt: u64,
    next: F,
) -> Waters<P, T, V> {
    if live {
        let owed = (WaveClock { acc: w.owed as u64 }).owed(dt);
        waved(
            Waters { owed: owed % SECOND as int, ..w },
            next,
            (owed / SECOND as int) as nat,
        )
    } else {
        w
    }
}

/// The pond after the first `k` squiggles were dropped.
pub open spec fn squiggled<P, T, V, G: Fn(RingEvent<P, T>, u64) -> bool>(
    w: Waters<P, T, V>,
    drops: Seq<P>,
    born: T,
    amp: T,
    past_prime: G,
    now: u64,
    k: int,
) -> Waters<P, T, V>
    decreases k,
{
    if k <= 0 {
        w
    } else {
        ring_added(
            squiggled(w, drops, born, amp, past_prime, now, k - 1),
            (drops[k - 1], born, amp),
            SQUIGGLE,
            past_prime,
            now,
        )
    }
}

impl<P: Copy, T: Copy, V: Copy> Pond<P, T, V> {
    /// The parts of the pond are well-formed.
    pub open spec fn wf(&self) -> bool {
        &&& self.clock.wf()
        &&& self.waves.wf()
        &&& self.rings.wf()
        &&& self.grid.wf()
        &&& self.memo.wf()
    }

    /// The rings and the surface.
    pub open spec fn waters(&self) -> Waters<P, T, V> {
        Waters {
            cols: self.grid.cols as int,
            rows: self.grid.rows as int,
            curr: self.grid.curr@,
            prev: self.grid.prev@,
            owed: self.waves.acc as int,
            rings: self.rings.rings@,
            cursor: self.rings.cursor,
            counter: self.rings.counter,
        }
    }

    /// A pond without rings or surface.
    pub fn new() -> (pond: Self)
        ensures
            pond.wf(),
            pond.clock.now == 0,
            pond.waves.acc == 0,
            pond.rings.rings.len() == 0,
            pond.rings.cursor == 0,
            pond.rings.counter == 0,
            pond.grid.cols == 0,
            pond.grid.rows == 0,
            pond.memo.heads.len() == 0,
            pond.memo.food is None,
            pond.memo.eaten == 0,
            !pond.memo.grid_was_live,
    {
        Pond {
            clock: WaterClock { now: 0 },
            waves: WaveClock { acc: 0 },
            rings: RippleRings::new(),
            grid: RippleGrid::new(),
            memo: RippleMemo::new(),
        }
    }

    /// Add a ring.
    fn add_ring<G: Fn(RingEvent<P, T>, u64) -> bool>(
        &mut self,
        ring: (P, T, T),
        kind: u32,
        past_prime: &G,
    )
        requires
            old(self).wf(),
            single_valued2(*past_prime),
            forall|r: RingEvent<P, T>, t: u64| past_prime.requires((r, t)),
        ensures
            final(self).wf(),
            final(self).clock == old(self).clock,
            final(self).memo == old(self).memo,
            final(self).grid == old(self).grid,
            final(self).waves == old(self).waves,
            final(self).waters() == ring_added(
                old(self).waters(),
                ring,
                kind,
                *past_prime,
                old(self).clock.now,
            ),
            ring_told(old(self).waters(), *past_prime, old(self).clock.now),
    {
        let now: u64 = self.clock.now;
        let gives_way = |r: RingEvent<P, T>| -> (b: bool)
            requires
                past_prime.requires((r, now)),
            ensures
                past_prime.ensures((r, now), b),
            { past_prime(r, now) };
        let ghost w = self.waters();
        self.rings.spawn(ring.0, ring.1, ring.2, kind, gives_way);
        proof {
            let slot = w.cursor as int % RING_MAX as int;
            if w.rings.len() >= RING_MAX {
                let told = answer1(gives_way, w.rings[slot]);
                lemma_answer2(*past_prime, w.rings[slot], now, told);
            }
        }
    }

    /// Splash the surface.
    fn take_splash<
        A: Fn(RippleAction, usize, usize) -> (usize, usize),
        D: Fn(RippleAction, V, usize) -> V,
    >(&mut self, action: RippleAction, aim: &A, deposit: &D)
        requires
            old(self).wf(),
            single_valued3(*aim),
            single_valued3(*deposit),
            forall|a: RippleAction, c: usize, r: usize| aim.requires((a, c, r)),
            forall|a: RippleAction, v: V, k: usize| deposit.requires((a, v, k)),
        ensures
            final(self).wf(),
            final(self).clock == old(self).clock,
            final(self).memo == old(self).memo,
            final(self).rings == old(self).rings,
            final(self).waves == old(self).waves,
            final(self).waters() == splash_taken(old(self).waters(), action, *aim, *deposit),
            old(self).grid.cols >= 2 && old(self).grid.rows >= 2 ==> {
                let w = old(self).waters();
                &&& answered3(*aim, action, old(self).grid.cols, old(self).grid.rows)
                &&& is_hit(w, action, *aim) ==> raise_told(
                    w.curr,
                    hit_nodes(w, action, *aim),
                    action,
                    *deposit,
                    4,
                )
            },
    {
        let (cols, rows) = (self.grid.cols, self.grid.rows);
        if cols < 2 || rows < 2 {
            return;
        }
        let at: (usize, usize) = aim(action, cols, rows);
        proof {
            lemma_answer3(*aim, action, cols, rows, at);
        }
        if at.0 >= cols || at.1 >= rows {
            return;
        }
        let raise = |v: V, k: usize| -> (h: V)
            requires
                deposit.requires((action, v, k)),
            ensures
                deposit.ensures((action, v, k), h),
            { deposit(action, v, k) };
        let ghost w = self.waters();
        self.grid.splat(at.0, at.1, raise);
        proof {
            let nodes = hit_nodes(w, action, *aim);
            lemma_raised(w.curr, nodes, action, *deposit, raise, 4);
        }
    }

    /// Do what an action asks.
    fn act<
        A: Fn(RippleAction, usize, usize) -> (usize, usize),
        D: Fn(RippleAction, V, usize) -> V,
        R: Fn(RippleAction, u64) -> (P, T, T),
        G: Fn(RingEvent<P, T>, u64) -> bool,
    >(
        &mut self,
        action: RippleAction,
        look: PondLook,
        flat: V,
        aim: &A,
        deposit: &D,
        ring: &R,
        past_prime: &G,
    )
        requires
            old(self).wf(),
            look.cols * look.rows <= usize::MAX,
            single_valued3(*aim),
            single_valued3(*deposit),
            single_valued2(*ring),
            single_valued2(*past_prime),
            forall|a: RippleAction, c: usize, r: usize| aim.requires((a, c, r)),
            forall|a: RippleAction, v: V, k: usize| deposit.requires((a, v, k)),
            forall|a: RippleAction, t: u64| ring.requires((a, t)),
            forall|r: RingEvent<P, T>, t: u64| past_prime.requires((r, t)),
        ensures
            final(self).wf(),
            final(self).clock == old(self).clock,
            final(self).memo == old(self).memo,
            final(self).waters() == acted(
                old(self).waters(),
                action,
                look,
                flat,
                old(self).clock.now,
                *aim,
                *deposit,
                *ring,
                *past_prime,
            ),
            act_told(
                old(self).waters(),
                action,
                old(self).clock.now,
                *aim,
                *deposit,
                *ring,
                *past_prime,
            ),
    {
        match action {
            RippleAction::ClearRings => {
                self.rings.clear();
                assert(self.rings.rings@ =~= Seq::empty());
            },
            RippleAction::CalmGrid => {
                self.grid.calm(flat);
                self.waves = WaveClock { acc: 0 };
            },
            RippleAction::ResizeGrid => {
                if self.grid.resize_for(look.cols, look.rows, flat) {
                    self.waves = WaveClock { acc: 0 };
                }
            },
            RippleAction::SplatWake(_) | RippleAction::SplatEaten(_) | RippleAction::SplatDrop(_)
            => {
                self.take_splash(action, aim, deposit);
            },
            RippleAction::RingWake(_) => {
                let now: u64 = self.clock.now;
                let own: (P, T, T) = ring(action, now);
                proof {
                    lemma_answer2(*ring, action, now, own);
                }
                self.add_ring(own, WAKE, past_prime);
            },
            RippleAction::RingEaten(_, _) | RippleAction::RingDrop(_) => {
                let now: u64 = self.clock.now;
                let own: (P, T, T) = ring(action, now);
                proof {
                    lemma_answer2(*ring, action, now, own);
                }
                self.add_ring(own, PLOP, past_prime);
            },
        }
    }

    /// Let the surface take `steps` steps.
    fn wave<F: Fn(Stencil<V>) -> V>(&mut self, steps: u64, next: &F)
        requires
            old(self).wf(),
            single_valued1(*next),
            forall|s: Stencil<V>| next.requires((s,)),
        ensures
            final(self).wf(),
            final(self).clock == old(self).clock,
            final(self).memo == old(self).memo,
            final(self).rings == old(self).rings,
            final(self).waters() == waved(old(self).waters(), *next, steps as nat),
            waves_told(old(self).waters(), *next, steps as nat),
    {
        let ghost w = self.waters();
        let mut k: u64 = 0;
        while k < steps
            invariant
                k <= steps,
                self.wf(),
                self.clock == old(self).clock,
                self.memo == old(self).memo,
                self.rings == old(self).rings,
                single_valued1(*next),
                forall|s: Stencil<V>| next.requires((s,)),
                w == old(self).waters(),
                self.waters() == waved(w, *next, k as nat),
                waves_told(w, *next, k as nat),
                self.grid.cols == w.cols,
                self.grid.rows == w.rows,
            decreases steps - k,
        {
            let ghost before = self.waters();
            self.grid.step(next);
            proof {
                let after = waved(w, *next, (k + 1) as nat);
                if w.cols >= 2 && w.rows >= 2 {
                    assert forall|at: int| 0 <= at < w.cols * w.rows implies self.grid.curr@[at]
                        == after.curr[at] by {
                        let (r, c) = (at / w.cols, at % w.cols);
                        lemma_at(at, w.cols, w.rows);
                        assert(node(r, c, w.cols) == at);
                    }
                    assert(self.grid.curr@ =~= after.curr);
                    assert forall|at: int| 0 <= at < w.cols * w.rows implies answered1(
                        *next,
                        #[trigger] seen_at(before, at),
                    ) by {
                        let (r, c) = (at / w.cols, at % w.cols);
                        lemma_at(at, w.cols, w.rows);
                        assert(node(r, c, w.cols) == at);
                        lemma_answer1(*next, seen_at(before, at), self.grid.curr@[at]);
                    }
                }
            }
            k += 1;
        }
    }

    /// What a frame finds.
    pub open spec fn frame_of(&self, look: PondLook, dt: u64) -> PondFrame {
        PondFrame {
            style: look.style,
            water: look.water,
            ripples: look.ripples,
            wrapped: self.clock.after(dt) < self.clock.now,
            has_rings: self.rings.rings.len() > 0,
            food: look.food,
            eaten: look.eaten,
        }
    }

    /// One frame of `dt` nanoseconds: the clock runs on, the frame's disturbances
    /// are fed into the style's medium, and a live surface catches up.
    pub fn frame<
        S: Fn(P, P) -> bool,
        W: Fn(T, P, P) -> T,
        E: Fn(T) -> bool,
        A: Fn(RippleAction, usize, usize) -> (usize, usize),
        D: Fn(RippleAction, V, usize) -> V,
        R: Fn(RippleAction, u64) -> (P, T, T),
        G: Fn(RingEvent<P, T>, u64) -> bool,
        F: Fn(Stencil<V>) -> V,
    >(
        &mut self,
        look: PondLook,
        dt: u64,
        heads: &Vec<P>,
        rest: T,
        flat: V,
        stirs: S,
        farther: W,
        due: E,
        aim: &A,
        deposit: &D,
        ring: &R,
        past_prime: &G,
        next: &F,
    ) -> (news: PondNews)
        requires
            old(self).wf(),
            look.cols * look.rows <= usize::MAX,
            single_valued2(stirs),
            single_valued3(farther),
            single_valued1(due),
            single_valued3(*aim),
            single_valued3(*deposit),
            single_valued2(*ring),
            single_valued2(*past_prime),
            single_valued1(*next),
            forall|a: P, b: P| stirs.requires((a, b)),
            forall|t: T, a: P, b: P| farther.requires((t, a, b)),
            forall|t: T| due.requires((t,)),
            forall|a: RippleAction, c: usize, r: usize| aim.requires((a, c, r)),
            forall|a: RippleAction, v: V, k: usize| deposit.requires((a, v, k)),
            forall|a: RippleAction, t: u64| ring.requires((a, t)),
            forall|r: RingEvent<P, T>, t: u64| past_prime.requires((r, t)),
            forall|s: Stencil<V>| next.requires((s,)),
        ensures
            final(self).wf(),
            final(self).clock.now as int == old(self).clock.after(dt),
            ({
                let frame = old(self).frame_of(look, dt);
                let actions = old(self).memo.asked(frame, heads@, rest, stirs, farther, due);
                let now = final(self).clock.now;
                let w = old(self).waters();
                let n = actions.len() as int;
                &&& final(self).waters() == caught_up(
                    all_acted(w, actions, look, flat, now, *aim, *deposit, *ring, *past_prime, n),
                    frame.grid_live(),
                    dt,
                    *next,
                )
                &&& all_told(
                    w,
                    actions,
                    look,
                    flat,
                    now,
                    *aim,
                    *deposit,
                    *ring,
                    *past_prime,
                    n,
                )
                &&& frame.grid_live() ==> {
                    let acted = all_acted(
                        w,
                        actions,
                        look,
                        flat,
                        now,
                        *aim,
                        *deposit,
                        *ring,
                        *past_prime,
                        n,
                    );
                    let owed = (WaveClock { acc: acted.owed as u64 }).owed(dt);
                    waves_told(
                        Waters { owed: owed % SECOND as int, ..acted },
                        *next,
                        (owed / SECOND as int) as nat,
                    )
                }
                &&& news.cleared == actions.contains(RippleAction::ClearRings)
                &&& old(self).memo.moves_to(
                    final(self).memo,
                    frame,
                    heads@,
                    rest,
                    stirs,
                    farther,
                    due,
                )
            }),
            news.squiggles == (look.water && look.style != WaterStyle::Natural && look.caustics),
            look.style == WaterStyle::Natural || !look.water ==> final(self).rings.rings.len() == 0,
    {
        let wrapped: bool = self.clock.advance(dt);
        let frame: PondFrame = PondFrame {
            style: look.style,
            water: look.water,
            ripples: look.ripples,
            wrapped,
            has_rings: self.rings.rings.len() > 0,
            food: look.food,
            eaten: look.eaten,
        };
        let actions: Vec<RippleAction> = self.memo.step_ripples(
            frame,
            heads,
            rest,
            stirs,
            farther,
            due,
        );
        let ghost (w, now, memo) = (self.waters(), self.clock.now, self.memo);
        let mut cleared: bool = false;
        let mut k: usize = 0;
        while k < actions.len()
            invariant
                k <= actions.len(),
                self.wf(),
                self.clock.now == now,
                self.memo == memo,
                look.cols * look.rows <= usize::MAX,
                single_valued3(*aim),
                single_valued3(*deposit),
                single_valued2(*ring),
                single_valued2(*past_prime),
                forall|a: RippleAction, c: usize, r: usize| aim.requires((a, c, r)),
                forall|a: RippleAction, v: V, j: usize| deposit.requires((a, v, j)),
                forall|a: RippleAction, t: u64| ring.requires((a, t)),
                forall|r: RingEvent<P, T>, t: u64| past_prime.requires((r, t)),
                self.waters() == all_acted(
                    w,
                    actions@,
                    look,
                    flat,
                    now,
                    *aim,
                    *deposit,
                    *ring,
                    *past_prime,
                    k as int,
                ),
                all_told(
                    w,
                    actions@,
                    look,
                    flat,
                    now,
                    *aim,
                    *deposit,
                    *ring,
                    *past_prime,
                    k as int,
                ),
                cleared == actions@.take(k as int).contains(RippleAction::ClearRings),
            decreases actions.len() - k,
        {
            let action: RippleAction = actions[k];
            proof {
                lemma_contains_next(actions@, k as int, RippleAction::ClearRings);
            }
            if let RippleAction::ClearRings = action {
                cleared = true;
            }
            self.act(action, look, flat, aim, deposit, ring, past_prime);
            k += 1;
        }
        assert(actions@.take(k as int) =~= actions@);
        proof {
            let hidden = look.style == WaterStyle::Natural || !look.water;
            if hidden {
                law_hidden_rings_go(
                    old(self).memo,
                    frame,
                    heads@,
                    rest,
                    stirs,
                    farther,
                    due,
                );
                lemma_rings_gone(
                    w,
                    actions@,
                    look,
                    flat,
                    now,
                    *aim,
                    *deposit,
                    *ring,
                    *past_prime,
                    actions.len() as int,
                );
            }
        }
        let live: bool = look.water && look.ripples && look.style == WaterStyle::Natural;
        if live {
            let steps: u64 = self.waves.advance(dt);
            self.wave(steps, next);
        }
        PondNews { cleared, squiggles: squiggles_on(look.style, look.water, look.caustics) }
    }

    /// Drop squiggles at the given places, one by one.
    pub fn squiggle<G: Fn(RingEvent<P, T>, u64) -> bool>(
        &mut self,
        drops: &Vec<P>,
        born: T,
        amp: T,
        past_prime: &G,
    )
        requires
            old(self).wf(),
            single_valued2(*past_prime),
            forall|r: RingEvent<P, T>, t: u64| past_prime.requires((r, t)),
        ensures
            final(self).wf(),
            final(self).clock == old(self).clock,
            final(self).memo == old(self).memo,
            final(self).grid == old(self).grid,
            final(self).waves == old(self).waves,
            final(self).waters() == squiggled(
                old(self).waters(),
                drops@,
                born,
                amp,
                *past_prime,
                old(self).clock.now,
                drops.len() as int,
            ),
            forall|k: int|
                0 <= k < drops.len() ==> ring_told(
                    #[trigger] squiggled(
                        old(self).waters(),
                        drops@,
                        born,
                        amp,
                        *past_prime,
                        old(self).clock.now,
                        k,
                    ),
                    *past_prime,
                    old(self).clock.now,
                ),
    {
        let ghost (w, now) = (self.waters(), self.clock.now);
        let mut k: usize = 0;
        while k < drops.len()
            invariant
                k <= drops.len(),
                self.wf(),
                self.clock == old(self).clock,
                self.memo == old(self).memo,
                self.grid == old(self).grid,
                self.waves == old(self).waves,
                w == old(self).waters(),
                now == old(self).clock.now,
                single_valued2(*past_prime),
                forall|r: RingEvent<P, T>, t: u64| past_prime.requires((r, t)),
                self.waters() == squiggled(w, drops@, born, amp, *past_prime, now, k as int),
                forall|j: int|
                    0 <= j < k ==> ring_told(
                        #[trigger] squiggled(w, drops@, born, amp, *past_prime, now, j),
                        *past_prime,
                        now,
                    ),
            decreases drops.len() - k,
        {
            self.add_ring((drops[k], born, amp), SQUIGGLE, past_prime);
            k += 1;
        }
    }

    /// Calm the pond when another experiment has just become the current one.
    /// Returns whether it did.
    pub fn clear_when_inactive(&mut self, changed: bool, current: ExperimentId, flat: V) -> (done:
        bool)
        requires
            old(self).wf(),
        ensures
            final(self).wf(),
            done == (changed && current != ExperimentId::Fish),
            !done ==> *final(self) == *old(self),
            done ==> {
                let w = old(self).waters();
                &&& final(self).waters() == (Waters {
                    rings: Seq::empty(),
                    cursor: 0,
                    ..calmed(w, w.cols, w.rows, flat)
                })
                &&& final(self).clock == old(self).clock
                &&& final(self).memo == old(self).memo
            },
    {
        if !crate::shell::clear_when_inactive(changed, current, ExperimentId::Fish) {
            return false;
        }
        self.grid.calm(flat);
        self.waves = WaveClock { acc: 0 };
        self.rings.clear();
        assert(self.rings.rings@ =~= Seq::empty());
        true
    }
}

proof fn lemma_rings_gone<
    P,
    T,
    V,
    A: Fn(RippleAction, usize, usize) -> (usize, usize),
    D: Fn(RippleAction, V, usize) -> V,
    R: Fn(RippleAction, u64) -> (P, T, T),
    G: Fn(RingEvent<P, T>, u64) -> bool,
>(
    w: Waters<P, T, V>,
    actions: Seq<RippleAction>,
    look: PondLook,
    flat: V,
    now: u64,
    aim: A,
    deposit: D,
    ring: R,
    past_prime: G,
    k: int,
)
    requires
        0 <= k <= actions.len(),
        forall|i: int| 0 <= i < actions.len() ==> !is_ringing(#[trigger] actions[i]),
    ensures
        w.rings.len() == 0 || actions.take(k).contains(RippleAction::ClearRings) ==> all_acted(
            w,
            actions,
            look,
            flat,
            now,
            aim,
            deposit,
            ring,
            past_prime,
            k,
        ).rings.len() == 0,
    decreases k,
{
    if k > 0 {
        lemma_rings_gone(w, actions, look, flat, now, aim, deposit, ring, past_prime, k - 1);
        lemma_contains_next(actions, k - 1, RippleAction::ClearRings);
        assert(!is_ringing(actions[k - 1]));
    }
}

proof fn lemma_at(at: int, cols: int, rows: int)
    requires
        cols > 0,
        0 <= at < cols * rows,
    ensures
        0 <= at / cols < rows,
        0 <= at % cols < cols,
        (at / cols) * cols + at % cols == at,
{
    vstd::arithmetic::div_mod::lemma_fundamental_div_mod(at, cols);
    assert(0 <= at / cols < rows && 0 <= at % cols < cols) by (nonlinear_arith)
        requires
            cols > 0,
            0 <= at < cols * rows,
    ;
    assert((at / cols) * cols == cols * (at / cols)) by (nonlinear_arith);
}

proof fn lemma_contains_next<X>(s: Seq<X>, k: int, x: X)
    requires
        0 <= k < s.len(),
    ensures
        s.take(k + 1).contains(x) <==> s.take(k).contains(x) || s[k] == x,
{
    let (a, b) = (s.take(k), s.take(k + 1));
    if a.contains(x) {
        let i = choose|i: int| 0 <= i < a.len() && a[i] == x;
        assert(b[i] == x);
    }
    if s[k] == x {
        assert(b[k] == x);
    }
    if b.contains(x) {
        let i = choose|i: int| 0 <= i < b.len() && b[i] == x;
        if i < k {
            assert(a[i] == x);
        }
    }
}

proof fn lemma_raised<V, D: Fn(RippleAction, V, usize) -> V, E: Fn(V, usize) -> V>(
    field: Seq<V>,
    nodes: Seq<int>,
    action: RippleAction,
    deposit: D,
    raise: E,
    k: int,
)
    requires
        0 <= k,
        single_valued3(deposit),
        splash_made(field, nodes, raise, k),
        forall|v: V, i: usize, h: V| #[trigger]
            raise.ensures((v, i), h) ==> deposit.ensures((action, v, i), h),
    ensures
        splashed(field, nodes, raise, k) == raised(field, nodes, action, deposit, k),
        raise_told(field, nodes, action, deposit, k),
    decreases k,
{
    if k > 0 {
        lemma_raised(field, nodes, action, deposit, raise, k - 1);
        let done = splashed(field, nodes, raise, k - 1);
        let (v, i) = (done[nodes[k - 1]], (k - 1) as usize);
        assert(answered2(raise, v, i));
        lemma_answer3(deposit, action, v, i, answer2(raise, v, i));
        assert forall|j: int| 0 <= j < k implies answered3(
            deposit,
            action,
            (#[trigger] raised(field, nodes, action, deposit, j))[nodes[j]],
            j as usize,
        ) by {
            if j == k - 1 {
                assert(raised(field, nodes, action, deposit, j) == done);
            }
        }
    }
}

/// A ring takes a new place while there is one, and then the place of a ring that
/// is past its prime, looking at one place for each ring in turn; all other rings
/// stay as they are, and so does the surface.
pub proof fn law_rings_take_turns<P, T, V, G: Fn(RingEvent<P, T>, u64) -> bool>(
    w: Waters<P, T, V>,
    ring: (P, T, T),
    kind: u32,
    past_prime: G,
    now: u64,
    i: int,
)
    requires
        w.rings.len() <= 512,
        0 <= i < w.rings.len(),
    ensures
        ({
            let after = ring_added(w, ring, kind, past_prime, now);
            let own = next_ring(w.counter, ring.0, ring.1, ring.2, kind);
            let looked = w.rings.len() == 512 && i == w.cursor % 512;
            &&& after.curr == w.curr
            &&& after.prev == w.prev
            &&& after.counter == w.counter.wrapping_add(1)
            &&& w.rings.len() < 512 ==> after.rings == w.rings.push(own) && after.cursor == w.cursor
            &&& w.rings.len() == 512 ==> after.rings.len() == 512
            &&& !looked ==> after.rings[i] == w.rings[i]
            &&& looked && past_prime.ensures((w.rings[i], now), true) ==> after.rings[i] == own
            &&& looked && !past_prime.ensures((w.rings[i], now), true) ==> after.rings[i]
                == w.rings[i]
            &&& w.rings.len() == 512 && w.cursor < usize::MAX ==> after.cursor == w.cursor + 1
        }),
{
}

/// A splash raises the four nodes round the place that it is aimed at, once each and
/// each by its own part; no other node moves, and no ring.
pub proof fn law_splashes_raise_where_aimed<
    P,
    T,
    V,
    A: Fn(RippleAction, usize, usize) -> (usize, usize),
    D: Fn(RippleAction, V, usize) -> V,
>(w: Waters<P, T, V>, action: RippleAction, aim: A, deposit: D, c: int, r: int, q: int)
    requires
        w.curr.len() == w.cols * w.rows,
        w.cols <= usize::MAX,
        w.rows <= usize::MAX,
        answer3(aim, action, w.cols as usize, w.rows as usize) == (c as usize, r as usize),
        0 <= c < w.cols - 1,
        0 <= r < w.rows - 1,
        0 <= q < w.curr.len(),
    ensures
        ({
            let after = splash_taken(w, action, aim, deposit);
            let here = r * w.cols + c;
            &&& after.prev == w.prev
            &&& after.rings == w.rings
            &&& after.curr.len() == w.curr.len()
            &&& after.curr[here] == answer3(deposit, action, w.curr[here], 0usize)
            &&& after.curr[here + 1] == answer3(deposit, action, w.curr[here + 1], 1usize)
            &&& after.curr[here + w.cols] == answer3(deposit, action, w.curr[here + w.cols], 2usize)
            &&& after.curr[here + w.cols + 1] == answer3(
                deposit,
                action,
                w.curr[here + w.cols + 1],
                3usize,
            )
            &&& q != here && q != here + 1 && q != here + w.cols && q != here + w.cols + 1
                ==> after.curr[q] == w.curr[q]
        }),
{
    let (cols, rows) = (w.cols, w.rows);
    let nodes = splash_nodes(cols, rows, c, r);
    let here = r * cols + c;
    assert((r + 1) * cols + c == here + cols) by (nonlinear_arith)
        requires
            here == r * cols + c,
    ;
    assert(0 <= here && here + cols + 1 < cols * rows) by (nonlinear_arith)
        requires
            here == r * cols + c,
            0 <= c < cols - 1,
            0 <= r < rows - 1,
    ;
    assert(nodes =~= seq![here, here + 1, here + cols, here + cols + 1]);
    assert(is_hit(w, action, aim));
    assert(hit_nodes(w, action, aim) == nodes);
    reveal_with_fuel(raised, 5);
}

/// One step of the surface gives every node what its own stencil gives, and keeps
/// the surface it had as the one before; steps add up.
pub proof fn law_surface_moves_node_by_node<P, T, V, F: Fn(Stencil<V>) -> V>(
    w: Waters<P, T, V>,
    next: F,
    k: nat,
    r: int,
    c: int,
)
    requires
        w.cols >= 2,
        w.rows >= 2,
        0 <= r < w.rows,
        0 <= c < w.cols,
    ensures
        ({
            let before = waved(w, next, k);
            let after = waved(w, next, k + 1);
            &&& after.prev == before.curr
            &&& after.rings == w.rings
            &&& after.cols == w.cols && after.rows == w.rows
            &&& after.curr.len() == w.cols * w.rows
            &&& after.curr[r * w.cols + c] == answer1(
                next,
                stencil_at(before.curr, before.prev, w.cols, w.rows, r, c),
            )
        }),
    decreases k,
{
    let (cols, rows) = (w.cols, w.rows);
    let at = r * cols + c;
    assert(0 <= at < cols * rows && at / cols == r && at % cols == c) by (nonlinear_arith)
        requires
            at == r * cols + c,
            0 <= r < rows,
            0 <= c < cols,
    ;
    if k > 0 {
        law_surface_moves_node_by_node(w, next, (k - 1) as nat, r, c);
        assert((k - 1) as nat + 1 == k);
    }
    let before = waved(w, next, k);
    assert(before.cols == cols && before.rows == rows && before.rings == w.rings);
    assert((k + 1 - 1) as nat == k);
    let after = waved(w, next, k + 1);
    assert(after.curr == Seq::new(
        (cols * rows) as nat,
        |at: int| answer1(next, seen_at(before, at)),
    ));
}

/// What an action does: splashes move the surface only, rings and their clearing the
/// rings only; a calm surface is flat all over, and one of the right size is left.
pub proof fn law_actions_keep_to_their_medium<
    P,
    T,
    V,
    A: Fn(RippleAction, usize, usize) -> (usize, usize),
    D: Fn(RippleAction, V, usize) -> V,
    R: Fn(RippleAction, u64) -> (P, T, T),
    G: Fn(RingEvent<P, T>, u64) -> bool,
>(
    w: Waters<P, T, V>,
    action: RippleAction,
    look: PondLook,
    flat: V,
    now: u64,
    aim: A,
    deposit: D,
    ring: R,
    past_prime: G,
    at: int,
)
    requires
        w.cols >= 0,
        w.rows >= 0,
    ensures
        ({
            let after = acted(w, action, look, flat, now, aim, deposit, ring, past_prime);
            let rings = action is RingWake || action is RingEaten || action is RingDrop;
            let splash = action is SplatWake || action is SplatEaten || action is SplatDrop;
            &&& rings || action is ClearRings ==> after.curr == w.curr && after.prev == w.prev
                && after.owed == w.owed
            &&& splash || action is CalmGrid || action is ResizeGrid ==> after.rings == w.rings
                && after.counter == w.counter && after.cursor == w.cursor
            &&& splash ==> after.prev == w.prev && after == splash_taken(w, action, aim, deposit)
            &&& action is ClearRings ==> after.rings.len() == 0 && after.cursor == 0
                && after.counter == w.counter
            &&& action is RingWake ==> after == ring_added(
                w,
                answer2(ring, action, now),
                0,
                past_prime,
                now,
            )
            &&& action is RingEaten || action is RingDrop ==> after == ring_added(
                w,
                answer2(ring, action, now),
                1,
                past_prime,
                now,
            )
            &&& action is CalmGrid && 0 <= at < w.cols * w.rows ==> after.curr[at] == flat
                && after.prev[at] == flat && after.owed == 0 && after.cols == w.cols && after.rows
                == w.rows
            &&& action is ResizeGrid ==> after.cols == look.cols && after.rows == look.rows
            &&& action is ResizeGrid && w.cols == look.cols && w.rows == look.rows ==> after == w
            &&& action is ResizeGrid && !(w.cols == look.cols && w.rows == look.rows) && 0 <= at
                < look.cols * look.rows ==> after.curr[at] == flat && after.prev[at] == flat
        }),
{
}

/// Squiggles drop one ring each, in their order, of the kind that is drawn idly.
pub proof fn law_squiggles_drop_in_turn<P, T, V, G: Fn(RingEvent<P, T>, u64) -> bool>(
    w: Waters<P, T, V>,
    drops: Seq<P>,
    born: T,
    amp: T,
    past_prime: G,
    now: u64,
    k: int,
)
    requires
        0 <= k <= drops.len(),
        w.rings.len() + k <= 512,
        w.counter + k <= u32::MAX,
    ensures
        ({
            let after = squiggled(w, drops, born, amp, past_prime, now, k);
            &&& after.rings.len() == w.rings.len() + k
            &&& after.rings.take(w.rings.len() as int) == w.rings
            &&& after.counter == w.counter + k
            &&& forall|i: int|
                0 <= i < k ==> {
                    let own = #[trigger] after.rings[w.rings.len() + i];
                    &&& own.pos == drops[i]
                    &&& own.born == born
                    &&& own.amp == amp
                    &&& own.kind == 2
                }
        }),
    decreases k,
{
    if k > 0 {
        law_squiggles_drop_in_turn(w, drops, born, amp, past_prime, now, k - 1);
        let before = squiggled(w, drops, born, amp, past_prime, now, k - 1);
        let after = squiggled(w, drops, born, amp, past_prime, now, k);
        assert(after.rings.take(w.rings.len() as int) =~= before.rings.take(w.rings.len() as int));
        assert forall|i: int| 0 <= i < k implies ({
            let own = #[trigger] after.rings[w.rings.len() + i];
            &&& own.pos == drops[i]
            &&& own.born == born
            &&& own.amp == amp
            &&& own.kind == 2
        }) by {
            if i < k - 1 {
                assert(after.rings[w.rings.len() + i] == before.rings[w.rings.len() + i]);
            }
        }
    } else {
        assert(w.rings.take(w.rings.len() as int) =~= w.rings);
    }
}

/// The actions are taken one after another, each on what those before it left.
pub proof fn law_actions_are_taken_in_order<
    P,
    T,
    V,
    A: Fn(RippleAction, usize, usize) -> (usize, usize),
    D: Fn(RippleAction, V, usize) -> V,
    R: Fn(RippleAction, u64) -> (P, T, T),
    G: Fn(RingEvent<P, T>, u64) -> bool,
>(
    w: Waters<P, T, V>,
    actions: Seq<RippleAction>,
    look: PondLook,
    flat: V,
    now: u64,
    aim: A,
    deposit: D,
    ring: R,
    past_prime: G,
    k: int,
)
    requires
        0 <= k < actions.len(),
    ensures
        all_acted(w, actions, look, flat, now, aim, deposit, ring, past_prime, 0) == w,
        all_acted(w, actions, look, flat, now, aim, deposit, ring, past_prime, k + 1) == acted(
            all_acted(w, actions, look, flat, now, aim, deposit, ring, past_prime, k),
            actions[k],
            look,
            flat,
            now,
            aim,
            deposit,
            ring,
            past_prime,
        ),
{
}

/// A surface that is not live stands still; a live one makes the steps that are due,
/// sixty a second and four in a frame at most, and keeps the rest of the time.
pub proof fn law_live_surfaces_catch_up<P, T, V, F: Fn(Stencil<V>) -> V>(
    w: Waters<P, T, V>,
    dt: u64,
    next: F,
)
    requires
        0 <= w.owed < 1_000_000_000,
    ensures
        caught_up(w, false, dt, next) == w,
        ({
            let gathered = w.owed + 60 * dt;
            let second = 1_000_000_000int;
            let after = caught_up(w, true, dt, next);
            &&& gathered < 4 * second ==> after == waved(
                Waters { owed: gathered % second, ..w },
                next,
                (gathered / second) as nat,
            )
            &&& gathered >= 4 * second ==> after == waved(Waters { owed: 0, ..w }, next, 4)
        }),
{
    let gathered = w.owed + 60 * dt;
    let owed = (WaveClock { acc: w.owed as u64 }).owed(dt);
    if gathered >= 4 * 1_000_000_000 {
        assert(owed == 4 * 1_000_000_000);
        assert(owed / 1_000_000_000 == 4 && owed % 1_000_000_000 == 0);
    } else {
        assert(owed == gathered);
    }
}

/// A frame sees the look as it is, the rings that there are, and whether the clock
/// has just started over.
pub proof fn law_frames_see_the_pond<P: Copy, T: Copy, V: Copy>(
    pond: Pond<P, T, V>,
    look: PondLook,
    dt: u64,
)
    ensures
        ({
            let frame = pond.frame_of(look, dt);
            &&& frame.style == look.style && frame.water == look.water && frame.ripples
                == look.ripples
            &&& frame.food == look.food && frame.eaten == look.eaten
            &&& frame.has_rings <==> pond.rings.rings.len() > 0
            &&& pond.clock.wf() && dt < 3_600_000_000_000 ==> (frame.wrapped <==> pond.clock.now
                + dt >= 3_600_000_000_000)
        }),
{
    if pond.clock.wf() && dt < 3_600_000_000_000 {
        crate::fish::ripples::law_clock_starts_over_on_the_hour(pond.clock, dt);
    }
}

} // verus!
