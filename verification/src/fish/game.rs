//! The fish's game: eat food, grow, and circle a pointer that stands still.

use vstd::prelude::*;

use crate::cli::{flag, flagged};
use crate::oracle::{
    answered1, answered2, lemma_answer1, lemma_answer2, single_valued1, single_valued2,
};
use crate::random::between;
use crate::shell::AppState;
use crate::text::{count_of, parse_count};

verus! {

/// The joints of a spine.
pub const JOINTS: usize = 12;

/// How far food stays from the edges of the screen, in pixels.
pub const FOOD_PAD: i32 = 50;

/// How far new food lies from the eaten one, in pixels.
pub const FOOD_DISTANCE: i64 = 200;

/// How often new food is drawn before it goes to the farthest corner.
pub const FOOD_TRIES: usize = 1000;

/// A piece of food, at whole pixels.
#[derive(Clone, Copy, Debug, PartialEq, Eq, Structural)]
pub struct Food {
    pub x: i32,
    pub y: i32,
}

/// The last pixel that food may lie on along a side of `extent` pixels; the
/// first one where the side is too short.
pub open spec fn food_limit_of(extent: int) -> int {
    if extent < 2 * FOOD_PAD {
        FOOD_PAD as int
    } else {
        extent - FOOD_PAD
    }
}

/// The food lies inside the padded screen.
pub open spec fn on_screen(food: Food, width: i32, height: i32) -> bool {
    &&& FOOD_PAD <= food.x <= food_limit_of(width as int)
    &&& FOOD_PAD <= food.y <= food_limit_of(height as int)
}

/// The two pieces are at least the distance apart that new food keeps.
pub open spec fn far_apart(a: Food, b: Food) -> bool {
    (a.x - b.x) * (a.x - b.x) + (a.y - b.y) * (a.y - b.y) >= FOOD_DISTANCE * FOOD_DISTANCE
}

/// The last pixel that food may lie on.
pub fn food_limit(extent: i32) -> (limit: i32)
    ensures
        limit == food_limit_of(extent as int),
        limit >= FOOD_PAD,
{
    if extent < 2 * FOOD_PAD {
        FOOD_PAD
    } else {
        extent - FOOD_PAD
    }
}

/// Whether two pieces of food are far enough apart.
pub fn is_far(a: Food, b: Food) -> (far: bool)
    ensures
        far == far_apart(a, b),
{
    let dx: i128 = a.x as i128 - b.x as i128;
    let dy: i128 = a.y as i128 - b.y as i128;
    proof {
        assert(0 <= dx * dx <= 0x1_0000_0000 * 0x1_0000_0000) by (nonlinear_arith)
            requires
                -0x1_0000_0000 <= dx <= 0x1_0000_0000,
        ;
        assert(0 <= dy * dy <= 0x1_0000_0000 * 0x1_0000_0000) by (nonlinear_arith)
            requires
                -0x1_0000_0000 <= dy <= 0x1_0000_0000,
        ;
    }
    dx * dx + dy * dy >= 40_000
}

/// Food at a random place of the padded screen.
pub fn random_food(width: i32, height: i32) -> (food: Food)
    ensures
        on_screen(food, width, height),
{
    let max_x: i32 = food_limit(width);
    let max_y: i32 = food_limit(height);
    let x: i32 = between(FOOD_PAD as i64, max_x as i64) as i32;
    let y: i32 = between(FOOD_PAD as i64, max_y as i64) as i32;
    Food { x, y }
}

/// The end of a side that is farther from `at`: the first pixel that food may lie
/// on, or the last.
pub open spec fn far_end(at: int, extent: int) -> int {
    if at - FOOD_PAD >= food_limit_of(extent) - at {
        FOOD_PAD as int
    } else {
        food_limit_of(extent)
    }
}

/// The corner of the padded screen that is farthest from the eaten food.
pub open spec fn far_corner(eaten: Food, width: i32, height: i32) -> Food {
    Food {
        x: far_end(eaten.x as int, width as int) as i32,
        y: far_end(eaten.y as int, height as int) as i32,
    }
}

/// Some place of the padded screen is far from the eaten food.
pub open spec fn has_far_place(eaten: Food, width: i32, height: i32) -> bool {
    exists|food: Food| #[trigger] on_screen(food, width, height) && far_apart(food, eaten)
}

/// No place of the padded screen is farther from the eaten food than its far
/// corner, which is far where any place is.
pub proof fn law_far_corner_is_farthest(eaten: Food, food: Food, width: i32, height: i32)
    requires
        on_screen(food, width, height),
    ensures
        on_screen(far_corner(eaten, width, height), width, height),
        far_apart(food, eaten) ==> far_apart(far_corner(eaten, width, height), eaten),
{
    let corner = far_corner(eaten, width, height);
    lemma_farther_end(eaten.x as int, food.x as int, corner.x as int);
    lemma_farther_end(eaten.y as int, food.y as int, corner.y as int);
}

proof fn lemma_farther_end(at: int, a: int, b: int)
    requires
        b - at <= a - at <= at - b || at - b <= a - at <= b - at,
    ensures
        (a - at) * (a - at) <= (b - at) * (b - at),
{
    let (d, e) = (a - at, b - at);
    assert(d * d <= e * e) by (nonlinear_arith)
        requires
            e <= d <= -e || -e <= d <= e,
    ;
}

/// A screen with a side of 600 pixels or more always has a place that is far from
/// the eaten food.
pub proof fn law_large_screens_have_far_places(eaten: Food, width: i32, height: i32)
    requires
        width >= 600 || height >= 600,
    ensures
        has_far_place(eaten, width, height),
{
    let corner = far_corner(eaten, width, height);
    let (dx, dy) = (corner.x - eaten.x, corner.y - eaten.y);
    assert(dx * dx + dy * dy >= 40_000) by (nonlinear_arith)
        requires
            dx >= 200 || dx <= -200 || dy >= 200 || dy <= -200,
    ;
    assert(on_screen(corner, width, height));
}

/// The first of the draws that is far from the eaten food is `food`, or none is
/// and `food` is the far corner.
pub open spec fn is_picked(
    food: Food,
    eaten: Food,
    draws: Seq<Food>,
    width: i32,
    height: i32,
) -> bool {
    ||| exists|k: int|
        0 <= k < draws.len() && food == #[trigger] draws[k] && far_apart(draws[k], eaten)
            && forall|j: int| 0 <= j < k ==> !far_apart(#[trigger] draws[j], eaten)
    ||| (forall|j: int| 0 <= j < draws.len() ==> !far_apart(#[trigger] draws[j], eaten)) && food
        == far_corner(eaten, width, height)
}

/// Where new food goes: the first draw that is far from the eaten food, or, where
/// none is, the corner of the padded screen that is farthest from it.
pub fn pick_food(eaten: Food, draws: &Vec<Food>, width: i32, height: i32) -> (food: Food)
    ensures
        is_picked(food, eaten, draws@, width, height),
{
    let mut k: usize = 0;
    while k < draws.len()
        invariant
            k <= draws.len(),
            forall|j: int| 0 <= j < k ==> !far_apart(#[trigger] draws[j], eaten),
        decreases draws.len() - k,
    {
        if is_far(draws[k], eaten) {
            assert(draws@[k as int] == draws[k as int]);
            return draws[k];
        }
        k += 1;
    }
    let (last_x, last_y) = (food_limit(width), food_limit(height));
    let x: i32 = if eaten.x as i64 - FOOD_PAD as i64 >= last_x as i64 - eaten.x as i64 {
        FOOD_PAD
    } else {
        last_x
    };
    let y: i32 = if eaten.y as i64 - FOOD_PAD as i64 >= last_y as i64 - eaten.y as i64 {
        FOOD_PAD
    } else {
        last_y
    };
    Food { x, y }
}

/// New food lies on the padded screen and far from the eaten food, wherever the
/// screen has such a place; else it lies in the far corner.
pub open spec fn is_respawned(food: Food, eaten: Food, width: i32, height: i32) -> bool {
    &&& on_screen(food, width, height)
    &&& has_far_place(eaten, width, height) ==> far_apart(food, eaten)
    &&& !has_far_place(eaten, width, height) ==> food == far_corner(eaten, width, height)
}

/// Draw new food, away from the eaten one.
pub fn respawn_food(eaten: Food, width: i32, height: i32) -> (food: Food)
    ensures
        is_respawned(food, eaten, width, height),
{
    let mut draws: Vec<Food> = Vec::new();
    let mut far: bool = false;
    while draws.len() < FOOD_TRIES && !far
        invariant
            draws.len() <= FOOD_TRIES,
            forall|k: int| 0 <= k < draws.len() ==> on_screen(#[trigger] draws[k], width, height),
        decreases FOOD_TRIES - draws.len(),
    {
        let drawn: Food = random_food(width, height);
        far = is_far(drawn, eaten);
        draws.push(drawn);
    }
    let food: Food = pick_food(eaten, &draws, width, height);
    proof {
        let corner = far_corner(eaten, width, height);
        if food != corner {
            let k = choose|k: int|
                0 <= k < draws.len() && food == #[trigger] draws@[k] && far_apart(draws@[k], eaten);
            assert(on_screen(draws[k], width, height));
        } else {
            assert(on_screen(corner, width, height));
        }
        if has_far_place(eaten, width, height) {
            let place = choose|place: Food| #[trigger]
                on_screen(place, width, height) && far_apart(place, eaten);
            law_far_corner_is_farthest(eaten, place, width, height);
        }
    }
    food
}

/// The state of the game around the fish.
#[derive(Clone, Copy)]
pub struct FishGame<P> {
    pub food: Food,
    pub eaten: u32,
    /// Whether the fish circles a pointer that it has reached.
    pub circling: bool,
    /// The pointer of the frame before; also where the fish heads while the
    /// cursor is outside the window.
    pub last_mouse: Option<P>,
}

/// What a frame asks of the fish.
#[derive(Clone, Copy)]
pub struct FishPlan<P> {
    /// Whether a fish has eaten, and grows.
    pub ate: bool,
    /// Whether the fish wander as a school in place of chasing the pointer.
    pub wanders: bool,
    /// Where the pointer is.
    pub mouse: P,
    /// Whether it starts to circle, heading on from where it faces.
    pub starts_circle: bool,
    /// Whether its target is swept around the pointer, without the wiggle.
    pub circles: bool,
}

/// Where the pointer is: the cursor, else where it was last, else the centre.
pub open spec fn pointer<P>(cursor: Option<P>, last: Option<P>, centre: P) -> P {
    match cursor {
        Some(p) => p,
        None => match last {
            Some(p) => p,
            None => centre,
        },
    }
}

/// Whether the pointer has moved since the last frame.
pub open spec fn has_moved<P, M: Fn(P, P) -> bool>(last: Option<P>, mouse: P, moved: M) -> bool {
    match last {
        Some(p) => moved.ensures((mouse, p), true),
        None => false,
    }
}

impl<P: Copy> FishGame<P> {
    /// A fresh game: food anywhere, nothing eaten, nothing tracked.
    pub fn new(width: i32, height: i32) -> (game: Self)
        ensures
            on_screen(game.food, width, height),
            game.eaten == 0,
            !game.circling,
            game.last_mouse is None,
    {
        FishGame { food: random_food(width, height), eaten: 0, circling: false, last_mouse: None }
    }

    /// One frame of the game with so many fish. `ate` tells whether a fish's head
    /// has reached the food, `moved` whether the pointer has moved between two
    /// places, and `reached` whether the fish has reached a pointer. Fish eat
    /// whether they swim alone or as a school. A school wanders; a fish alone
    /// chases the pointer, and circles it while the pointer stands still and the
    /// fish has reached it.
    pub fn drive_fish<M: Fn(P, P) -> bool, R: Fn(P) -> bool>(
        &mut self,
        fish: usize,
        ate: bool,
        width: i32,
        height: i32,
        cursor: Option<P>,
        centre: P,
        moved: M,
        reached: R,
    ) -> (plan: FishPlan<P>)
        requires
            fish >= 1 && ate ==> old(self).eaten < u32::MAX,
            single_valued2(moved),
            single_valued1(reached),
            forall|a: P, b: P| moved.requires((a, b)),
            forall|p: P| reached.requires((p,)),
        ensures
            plan.ate == (fish >= 1 && ate),
            fish >= 1 ==> final(self).eaten == old(self).eaten + (if ate {
                1int
            } else {
                0int
            }),
            !plan.ate ==> final(self).eaten == old(self).eaten && final(self).food == old(
                self,
            ).food,
            plan.ate ==> is_respawned(final(self).food, old(self).food, width, height),
            plan.wanders == (fish > 1),
            plan.mouse == pointer(cursor, old(self).last_mouse, centre),
            fish != 1 ==> {
                &&& final(self).last_mouse == old(self).last_mouse
                &&& final(self).circling == old(self).circling
                &&& !plan.starts_circle
                &&& !plan.circles
            },
            fish == 1 ==> {
                &&& final(self).last_mouse == Some(plan.mouse)
                &&& old(self).last_mouse matches Some(last) ==> answered2(moved, plan.mouse, last)
                &&& !old(self).circling && !has_moved(old(self).last_mouse, plan.mouse, moved)
                    ==> answered1(reached, plan.mouse)
                &&& plan.starts_circle == (!old(self).circling && !has_moved(
                    old(self).last_mouse,
                    plan.mouse,
                    moved,
                ) && reached.ensures((plan.mouse,), true))
                &&& final(self).circling == (!has_moved(old(self).last_mouse, plan.mouse, moved)
                    && (old(self).circling || plan.starts_circle))
                &&& plan.circles == final(self).circling
            },
    {
        let ate: bool = fish >= 1 && ate;
        if ate {
            self.eaten = self.eaten + 1;
            self.food = respawn_food(self.food, width, height);
        }
        let mouse: P = match cursor {
            Some(p) => p,
            None => match self.last_mouse {
                Some(p) => p,
                None => centre,
            },
        };
        if fish != 1 {
            return FishPlan {
                ate,
                wanders: fish > 1,
                mouse,
                starts_circle: false,
                circles: false,
            };
        }
        let has_moved: bool = match self.last_mouse {
            Some(last) => {
                let moves: bool = moved(mouse, last);
                proof {
                    lemma_answer2(moved, mouse, last, moves);
                }
                moves
            },
            None => false,
        };
        self.last_mouse = Some(mouse);
        let mut starts_circle: bool = false;
        if has_moved {
            self.circling = false;
        } else if !self.circling {
            starts_circle = reached(mouse);
            proof {
                lemma_answer1(reached, mouse, starts_circle);
            }
            self.circling = starts_circle;
        }
        FishPlan { ate, wanders: false, mouse, starts_circle, circles: self.circling }
    }
}

/// A fish that circles a pointer goes on circling it while it stands still,
/// and a pointer that moves is chased.
pub proof fn law_circling_lasts_while_the_pointer_stands<P, M: Fn(P, P) -> bool>(
    before: FishGame<P>,
    after: FishGame<P>,
    mouse: P,
    moved: M,
    starts: bool,
)
    requires
        before.circling,
        after.circling == (!has_moved(before.last_mouse, mouse, moved) && (before.circling
            || starts)),
    ensures
        after.circling <==> !has_moved(before.last_mouse, mouse, moved),
{
}

/// Whether the fish are made anew this frame: on a request, on the key while
/// playing, or where there are none yet.
pub fn restart_due(requested: bool, state: AppState, key: bool, fish: usize) -> (due: bool)
    ensures
        due == (requested || (state == AppState::Playing && key) || fish == 0),
{
    requested || (state == AppState::Playing && key) || fish == 0
}

/// Where each of `count` new fish starts: one alone in the middle, several all
/// over the screen.
pub fn starts_centred(count: usize) -> (centred: bool)
    ensures
        centred == (count == 1),
{
    count == 1
}

/// Keep the number of fish at a count, which may change at any time: fish beyond
/// it leave, the others stay as they are, and new ones come behind them.
pub fn sync_fish_count<F, N: Fn(usize) -> F>(fishes: &mut Vec<F>, count: usize, hatch: N)
    requires
        forall|i: usize| hatch.requires((i,)),
    ensures
        final(fishes).len() == count,
        forall|i: int|
            0 <= i < count && i < old(fishes).len() ==> #[trigger] final(fishes)[i] == old(
                fishes,
            )[i],
        forall|i: int|
            old(fishes).len() <= i < count ==> hatch.ensures(
                (i as usize,),
                #[trigger] final(fishes)[i],
            ),
{
    if fishes.len() > count {
        fishes.truncate(count);
    }
    while fishes.len() < count
        invariant
            fishes.len() <= count,
            fishes.len() >= old(fishes).len() || fishes.len() == count,
            forall|i: usize| hatch.requires((i,)),
            forall|i: int|
                0 <= i < fishes.len() && i < old(fishes).len() ==> #[trigger] fishes[i] == old(
                    fishes,
                )[i],
            forall|i: int|
                old(fishes).len() <= i < fishes.len() ==> hatch.ensures(
                    (i as usize,),
                    #[trigger] fishes[i],
                ),
        decreases count - fishes.len(),
    {
        let fish: F = hatch(fishes.len());
        fishes.push(fish);
    }
}

/// How many fish a run with these arguments has: one in the game; in a perf run
/// that names the fish, the number behind the program's name, else one.
pub open spec fn fish_count_of(args: Seq<String>) -> int {
    if flagged(args, "fish"@) {
        match count_of(args[1]@) {
            Some(n) => n,
            None => 1,
        }
    } else {
        1
    }
}

/// How many fish a run with these arguments has.
pub fn perf_fish_count(args: &Vec<String>) -> (count: usize)
    ensures
        count == fish_count_of(args@),
{
    if !flag(args, "fish") {
        return 1;
    }
    match parse_count(args[1].as_str()) {
        Some(n) => n,
        None => 1,
    }
}

/// What a wandering fish of a perf run heads for.
#[derive(Clone, Copy, Debug, PartialEq, Eq, Structural)]
pub enum Wander {
    /// The middle of the screen.
    Centre,
    /// A new random place.
    Anew,
    /// The place that it heads for already.
    Onward,
}

/// What a wandering fish heads for: the middle while pinned, a new place once
/// it has come near to its own.
pub fn wander(pinned: bool, near: bool) -> (to: Wander)
    ensures
        to == (if pinned {
            Wander::Centre
        } else if near {
            Wander::Anew
        } else {
            Wander::Onward
        }),
{
    if pinned {
        Wander::Centre
    } else if near {
        Wander::Anew
    } else {
        Wander::Onward
    }
}

/// Food lies fifty from every edge of the screen at least, wherever the screen has
/// room for that.
pub proof fn law_food_keeps_off_the_edges(food: Food, width: i32, height: i32)
    requires
        width >= 100,
        height >= 100,
    ensures
        on_screen(food, width, height) <==> 50 <= food.x <= width - 50 && 50 <= food.y <= height
            - 50,
{
}

/// New food lies two hundred away from what was eaten at least, in any direction.
pub proof fn law_food_is_far_at_two_hundred(a: Food, b: Food)
    ensures
        far_apart(a, b) <==> far_apart(b, a),
        a.x - b.x >= 200 ==> far_apart(a, b),
        a.y - b.y >= 200 ==> far_apart(a, b),
        far_apart(a, b) <==> (a.x - b.x) * (a.x - b.x) + (a.y - b.y) * (a.y - b.y) >= 40_000,
{
    let (x, y) = (a.x - b.x, a.y - b.y);
    assert(x * x >= 0 && y * y >= 0) by (nonlinear_arith);
    assert((0 - x) * (0 - x) == x * x && (0 - y) * (0 - y) == y * y) by (nonlinear_arith);
    if x >= 200 {
        assert(x * x >= 40_000) by (nonlinear_arith)
            requires
                x >= 200,
        ;
    }
    if y >= 200 {
        assert(y * y >= 40_000) by (nonlinear_arith)
            requires
                y >= 200,
        ;
    }
}

/// The first draw that is far enough is taken: a far draw in the first place always
/// is, and where any is far the food is.
pub proof fn law_first_far_draw_is_taken(
    food: Food,
    eaten: Food,
    draws: Seq<Food>,
    width: i32,
    height: i32,
    k: int,
)
    requires
        is_picked(food, eaten, draws, width, height),
        0 <= k < draws.len(),
        far_apart(draws[k], eaten),
    ensures
        far_apart(food, eaten),
        draws.contains(food),
        (forall|j: int| 0 <= j < k ==> !far_apart(#[trigger] draws[j], eaten)) ==> food == draws[k],
{
    assert(draws.contains(food));
}

/// The fish heads for the cursor; outside the window for where it was last, and
/// before there was one for the middle.
pub proof fn law_pointer_stays_where_it_was<P>(p: P, last: Option<P>, centre: P)
    ensures
        pointer(Some(p), last, centre) == p,
        pointer(None, Some(p), centre) == p,
        pointer(None, None, centre) == centre,
{
}

} // verus!
