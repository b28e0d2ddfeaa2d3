//! The picture of the pond's fish and food: what it is made of and in which
//! order.

use vstd::prelude::*;

use crate::fish::paint::{flake_count, flake_step, flake_word, halves_swapped, FlakeRng};
use crate::mesh::{
    all_wf, chunk_count, chunk_plan, joined_indices, joined_vertices, merge, shifted, Mesh,
};

verus! {

/// The parts of a fish.
#[derive(Clone, Copy, Debug, PartialEq, Eq, Structural)]
pub enum FishPart {
    LateralFins,
    Tail,
    Body,
    DorsalFin,
    Eyes,
}

/// The parts of a fish in painting order.
pub fn fish_parts() -> (parts: [FishPart; 5])
    ensures
        parts@ == seq![
            FishPart::LateralFins,
            FishPart::Tail,
            FishPart::Body,
            FishPart::DorsalFin,
            FishPart::Eyes,
        ],
{
    [
        FishPart::LateralFins,
        FishPart::Tail,
        FishPart::Body,
        FishPart::DorsalFin,
        FishPart::Eyes,
    ]
}

/// What was drawn for one flake of food: numbers for its angle and distance from
/// the middle, its two radii, its turn and its tone.
#[derive(Clone, Copy, Debug, PartialEq, Eq, Structural)]
pub struct Flake {
    pub angle: u32,
    pub dist: u32,
    pub rx: u32,
    pub ry: u32,
    pub turn: u32,
    pub tone: u32,
}

/// The state after `k` numbers.
pub open spec fn flake_state(state: u32, k: nat) -> u32
    decreases k,
{
    if k == 0 {
        state
    } else {
        flake_step(flake_state(state, (k - 1) as nat))
    }
}

/// The number `k` of a scatter that starts at a state, counted from one.
pub open spec fn flake_number(state: u32, k: nat) -> u32 {
    flake_word(flake_state(state, k))
}

/// The flake `i` of a scatter: six numbers, after the one for the scatter's spin.
pub open spec fn flake_at(state: u32, i: int) -> Flake {
    let k = (6 * i) as nat;
    Flake {
        angle: flake_number(state, k + 2),
        dist: flake_number(state, k + 3),
        rx: flake_number(state, k + 4),
        ry: flake_number(state, k + 5),
        turn: flake_number(state, k + 6),
        tone: flake_number(state, k + 7),
    }
}

/// The numbers of a pinch of food that was dropped at the place with these
/// coordinate bits and has the given raw size: its spin, and its flakes.
pub fn emit_food(x: u32, y: u32, raw: usize) -> (scatter: (u32, Vec<Flake>))
    ensures
        ({
            let start = x.wrapping_mul(0x9E37_79B9) ^ halves_swapped(y);
            &&& scatter.0 == flake_number(start, 1)
            &&& scatter.1.len() == crate::arith::clamped(raw as int, 4, 10)
            &&& forall|i: int|
                0 <= i < scatter.1.len() ==> #[trigger] scatter.1[i] == flake_at(start, i)
        }),
{
    let mut rng: FlakeRng = FlakeRng::new(x, y);
    let ghost start = rng.state;
    let n: usize = flake_count(raw);
    let spin: u32 = rng.next();
    proof {
        reveal_with_fuel(flake_state, 2);
    }
    let mut flakes: Vec<Flake> = Vec::new();
    let mut i: usize = 0;
    while i < n
        invariant
            i <= n,
            n <= 10,
            rng.state == flake_state(start, (6 * i + 1) as nat),
            flakes.len() == i,
            forall|k: int| 0 <= k < i ==> #[trigger] flakes[k] == flake_at(start, k),
        decreases n - i,
    {
        let ghost k = (6 * i) as nat;
        let angle: u32 = rng.next();
        let dist: u32 = rng.next();
        let rx: u32 = rng.next();
        let ry: u32 = rng.next();
        let turn: u32 = rng.next();
        let tone: u32 = rng.next();
        proof {
            assert(flake_state(start, k + 2) == flake_step(flake_state(start, k + 1)));
            assert(flake_state(start, k + 3) == flake_step(flake_state(start, k + 2)));
            assert(flake_state(start, k + 4) == flake_step(flake_state(start, k + 3)));
            assert(flake_state(start, k + 5) == flake_step(flake_state(start, k + 4)));
            assert(flake_state(start, k + 6) == flake_step(flake_state(start, k + 5)));
            assert(flake_state(start, k + 7) == flake_step(flake_state(start, k + 6)));
        }
        flakes.push(Flake { angle, dist, rx, ry, turn, tone });
        i += 1;
    }
    (spin, flakes)
}

/// Fewer fish than this are painted in one go.
pub const SERIAL_FISH: usize = 16;

/// Ranges cover the numbers below `n` without gaps, in order.
pub open spec fn covers(ranges: Seq<(usize, usize)>, n: int) -> bool {
    &&& forall|k: int| 0 <= k < ranges.len() ==> (#[trigger] ranges[k]).0 < ranges[k].1
    &&& ranges.len() > 0 ==> ranges[0].0 == 0 && ranges.last().1 == n
    &&& ranges.len() == 0 ==> n == 0
    &&& forall|j: int, k: int|
        0 <= j && k == j + 1 && k < ranges.len() ==> (#[trigger] ranges[j]).1 == (
        #[trigger] ranges[k]).0
}

/// The parts of `count` fish that workers of a pool of `threads` paint: one part
/// for few fish, else a few per worker of equal size, but for the last.
pub fn fish_chunks(count: usize, threads: usize) -> (ranges: Vec<(usize, usize)>)
    requires
        threads <= usize::MAX / 3,
    ensures
        covers(ranges@, count as int),
        count == 0 ==> ranges.len() == 0,
        0 < count < SERIAL_FISH ==> ranges.len() == 1,
        count >= SERIAL_FISH ==> {
            let size = crate::arith::ceil_div(
                count as int,
                chunk_count(count as int, threads as int),
            );
            forall|k: int|
                0 <= k < ranges.len() ==> {
                    &&& (#[trigger] ranges[k]).0 == size * k
                    &&& ranges[k].1 == crate::arith::least(size * (k + 1), count as int)
                }
        },
{
    let mut ranges: Vec<(usize, usize)> = Vec::new();
    if count == 0 {
        return ranges;
    }
    if count < SERIAL_FISH {
        ranges.push((0, count));
        return ranges;
    }
    let plan: (usize, usize) = chunk_plan(count, threads);
    let size: usize = plan.1;
    proof {
        crate::arith::lemma_ceil_div(count as int, plan.0 as int);
        assert(size >= 1) by (nonlinear_arith)
            requires
                plan.0 * size >= count,
                count >= 16,
                plan.0 >= 1,
                size >= 0,
        ;
    }
    let mut at: usize = 0;
    assert(size * 0 == 0) by (nonlinear_arith);
    while at < count
        invariant
            at <= count,
            size >= 1,
            count >= 1,
            at == crate::arith::least(size * ranges.len(), count as int),
            at < count ==> at == size * ranges.len(),
            forall|k: int| 0 <= k < ranges.len() ==> (#[trigger] ranges[k]).0 < ranges[k].1,
            ranges.len() > 0 ==> ranges[0].0 == 0 && ranges@.last().1 == at,
            ranges.len() == 0 ==> at == 0,
            forall|j: int, k: int|
                0 <= j && k == j + 1 && k < ranges.len() ==> (#[trigger] ranges[j]).1 == (
                #[trigger] ranges[k]).0,
            forall|k: int|
                0 <= k < ranges.len() ==> {
                    &&& (#[trigger] ranges[k]).0 == size * k
                    &&& ranges[k].1 == crate::arith::least(size * (k + 1), count as int)
                },
        decreases count - at,
    {
        let end: usize = if count - at <= size {
            count
        } else {
            at + size
        };
        proof {
            let k = ranges.len() as int;
            assert(size * (k + 1) == size * k + size) by (nonlinear_arith);
        }
        ranges.push((at, end));
        at = end;
    }
    ranges
}

/// Put the picture together: the food, and the fish over it in the order of
/// their parts.
pub fn rebuild_geometry<V: Copy>(food: &Mesh<V>, parts: &Vec<Mesh<V>>) -> (mesh: Mesh<V>)
    requires
        food.wf(),
        all_wf(parts@),
        food.vertices.len() + joined_vertices(parts@).len() <= u32::MAX,
    ensures
        mesh.wf(),
        mesh.vertices@ == food.vertices@ + joined_vertices(parts@),
        mesh.indices@ == food.indices@ + shifted(
            joined_indices(parts@),
            food.vertices.len() as int,
        ),
{
    let mut mesh: Mesh<V> = Mesh::new();
    mesh.append(food);
    let fish: Mesh<V> = merge(parts);
    proof {
        assert(mesh.vertices@ =~= food.vertices@);
        assert(mesh.indices@ =~= food.indices@);
    }
    mesh.append(&fish);
    mesh
}

/// Every fish is in exactly one part.
pub proof fn law_every_fish_is_painted_once(ranges: Seq<(usize, usize)>, n: int, i: int)
    requires
        covers(ranges, n),
        0 <= i < n,
    ensures
        exists|k: int| 0 <= k < ranges.len() && (#[trigger] ranges[k]).0 <= i < ranges[k].1,
        forall|j: int, k: int|
            0 <= j < ranges.len() && 0 <= k < ranges.len() && (#[trigger] ranges[j]).0 <= i
                < ranges[j].1 && (#[trigger] ranges[k]).0 <= i < ranges[k].1 ==> j == k,
{
    lemma_part_of(ranges, n, i, ranges.len() - 1);
    assert forall|j: int, k: int|
        0 <= j < ranges.len() && 0 <= k < ranges.len() && (#[trigger] ranges[j]).0 <= i < ranges[j].1
            && (#[trigger] ranges[k]).0 <= i < ranges[k].1 implies j == k by {
        if j < k {
            lemma_parts_in_order(ranges, n, j, k);
        } else if k < j {
            lemma_parts_in_order(ranges, n, k, j);
        }
    }
}

proof fn lemma_part_of(ranges: Seq<(usize, usize)>, n: int, i: int, last: int)
    requires
        covers(ranges, n),
        0 <= last < ranges.len(),
        0 <= i < ranges[last].1,
    ensures
        exists|k: int| 0 <= k < ranges.len() && (#[trigger] ranges[k]).0 <= i < ranges[k].1,
    decreases last,
{
    if i < ranges[last].0 {
        assert(last > 0);
        assert(ranges[last - 1].1 == ranges[last].0);
        lemma_part_of(ranges, n, i, last - 1);
    } else {
        assert(ranges[last].0 <= i < ranges[last].1);
    }
}

proof fn lemma_parts_in_order(ranges: Seq<(usize, usize)>, n: int, j: int, k: int)
    requires
        covers(ranges, n),
        0 <= j < k < ranges.len(),
    ensures
        ranges[j].1 <= ranges[k].0,
    decreases k - j,
{
    if j + 1 < k {
        assert(ranges[j].1 == ranges[j + 1].0);
        assert(ranges[j + 1].0 < ranges[j + 1].1);
        lemma_parts_in_order(ranges, n, j + 1, k);
    } else {
        assert(ranges[j].1 == ranges[k].0);
    }
}

/// The flakes of a drop are drawn in turn, six numbers each, behind the one that
/// turns the whole drop: no two share a number.
pub proof fn law_flakes_draw_in_turn(state: u32, i: int)
    requires
        i >= 0,
    ensures
        ({
            let s = flake_state(state, (6 * i + 1) as nat);
            let flake = flake_at(state, i);
            let (a, b, c) = (flake_step(s), flake_step(flake_step(s)), flake_step(
                flake_step(flake_step(s)),
            ));
            let (d, e, f) = (flake_step(c), flake_step(flake_step(c)), flake_step(
                flake_step(flake_step(c)),
            ));
            &&& flake_state(state, 1) == flake_step(state)
            &&& flake.angle == flake_word(a)
            &&& flake.dist == flake_word(b)
            &&& flake.rx == flake_word(c)
            &&& flake.ry == flake_word(d)
            &&& flake.turn == flake_word(e)
            &&& flake.tone == flake_word(f)
            &&& flake_state(state, (6 * (i + 1) + 1) as nat) == f
        }),
{
    reveal_with_fuel(flake_state, 7);
}

} // verus!
