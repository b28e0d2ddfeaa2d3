//! The fish's game, the pond's disturbances, and what of it is drawn.

use boids::fish::game::{
    food_limit, is_far, perf_fish_count, pick_food, random_food, respawn_food, restart_due,
    starts_centred, sync_fish_count, wander, FishGame, Food, Wander, FOOD_PAD,
};
use boids::fish::layers::{
    fish_layout, layer_draw, pipeline_label, queue_water, LayerDraw, WaterFrame, WaterLayer,
    WaterLook,
};
use boids::fish::paint::{flake_count, flake_tone, FlakeRng};
use boids::fish::picture::{emit_food, fish_chunks, fish_parts, rebuild_geometry, FishPart};
use boids::fish::pond::{Pond, PondLook, PondNews};
use boids::fish::ripples::{
    life_millis, squiggles_on, PondFrame, RingEvent, RippleAction, RippleMemo, RippleRings,
    WaterClock, WaveClock, HOUR,
};
use boids::fish::water::{RippleGrid, Stencil, WaterStyle};
use boids::layout::{Attribute, AttributeFormat, StepMode};
use boids::mesh::Mesh;
use boids::shell::{AppState, ExperimentId};

#[test]
fn food_lies_on_the_padded_screen() {
    assert_eq!(food_limit(1280), 1230);
    assert_eq!(food_limit(60), 50);
    let mut places = vec![];
    for _ in 0..200 {
        let food = random_food(1280, 800);
        assert!(food.x >= FOOD_PAD && food.x <= 1230);
        assert!(food.y >= FOOD_PAD && food.y <= 750);
        places.push((food.x, food.y));
    }
    places.sort();
    places.dedup();
    assert!(places.len() > 1, "food is dropped all over the screen");
    // A screen that is too small has one place.
    assert_eq!(random_food(10, 10), Food { x: 50, y: 50 });
}

#[test]
fn new_food_keeps_its_distance() {
    let eaten = Food { x: 400, y: 300 };
    assert!(is_far(Food { x: 600, y: 300 }, eaten));
    assert!(!is_far(Food { x: 599, y: 300 }, eaten));
    assert!(is_far(Food { x: 520, y: 460 }, eaten));
    for _ in 0..200 {
        assert!(is_far(respawn_food(eaten, 1280, 800), eaten));
    }
    // Where every place is near, the farthest corner is left.
    assert_eq!(respawn_food(Food { x: 50, y: 50 }, 90, 90), Food { x: 50, y: 50 });
}

#[test]
fn the_first_far_draw_is_picked() {
    let (eaten, near, far) = (Food { x: 0, y: 0 }, Food { x: 60, y: 60 }, Food { x: 300, y: 0 });
    assert_eq!(pick_food(eaten, &vec![near, far, near], 1280, 800), far);
    assert_eq!(pick_food(eaten, &vec![far, near], 1280, 800), far);
    // Where none is far, the farthest corner takes the food.
    assert_eq!(pick_food(eaten, &vec![near, near], 1280, 800), Food { x: 1230, y: 750 });
    assert_eq!(
        pick_food(Food { x: 1200, y: 100 }, &vec![], 1280, 800),
        Food { x: 50, y: 750 }
    );
    assert_eq!(
        pick_food(Food { x: i32::MAX, y: i32::MIN }, &vec![], 1280, 800),
        Food { x: 50, y: 750 }
    );
}

#[test]
fn a_fish_circles_a_pointer_that_stands_still() {
    let moved = |a: i32, b: i32| a != b;
    let mut game: FishGame<i32> = FishGame::new(1280, 800);
    let at = game.food;
    assert_eq!((game.eaten, game.circling, game.last_mouse), (0, false, None));
    // No cursor yet: the centre stands in, and is not reached.
    let plan = game.drive_fish(1, false, 1280, 800, None, 640, moved, |_: i32| false);
    assert_eq!((plan.ate, plan.mouse, plan.starts_circle, plan.circles), (false, 640, false, false));
    // The pointer moves: it is chased, though it is reached.
    let plan = game.drive_fish(1, false, 1280, 800, Some(100), 640, moved, |_: i32| true);
    assert_eq!((plan.mouse, plan.starts_circle, plan.circles), (100, false, false));
    // It stands, and is reached: the fish starts to circle.
    let plan = game.drive_fish(1, false, 1280, 800, Some(100), 640, moved, |_: i32| true);
    assert_eq!((plan.starts_circle, plan.circles), (true, true));
    // It goes on, even outside the window and off the pointer.
    let plan = game.drive_fish(1, false, 1280, 800, None, 640, moved, |_: i32| false);
    assert_eq!((plan.mouse, plan.starts_circle, plan.circles), (100, false, true));
    assert_eq!(game.food, at);
    // Eating counts and drops food elsewhere.
    let plan = game.drive_fish(1, true, 1280, 800, Some(101), 640, moved, |_: i32| false);
    assert_eq!((plan.ate, plan.circles, game.eaten), (true, false, 1));
    assert!(is_far(game.food, at));
}

#[test]
fn a_school_eats_and_wanders() {
    let moved = |a: i32, b: i32| a != b;
    let mut game: FishGame<i32> = FishGame::new(1280, 800);
    let at = game.food;
    let plan = game.drive_fish(3, true, 1280, 800, Some(7), 640, moved, |_: i32| true);
    assert_eq!((plan.ate, plan.wanders, plan.circles, game.eaten), (true, true, false, 1));
    assert!(is_far(game.food, at));
    assert_eq!((game.last_mouse, game.circling), (None, false));
    let at = game.food;
    let plan = game.drive_fish(3, false, 1280, 800, Some(7), 640, moved, |_: i32| true);
    assert_eq!((plan.ate, game.eaten, game.food), (false, 1, at));
    // Where there is no fish, nothing eats.
    let plan = game.drive_fish(0, true, 1280, 800, None, 640, moved, |_: i32| true);
    assert_eq!((plan.ate, plan.wanders, game.eaten, game.food), (false, false, 1, at));
}

#[test]
fn the_fish_follow_their_count() {
    let mut fish = vec![10, 11, 12];
    sync_fish_count(&mut fish, 5, |i: usize| 20 + i as i32);
    assert_eq!(fish, [10, 11, 12, 23, 24]);
    sync_fish_count(&mut fish, 2, |_: usize| 0);
    assert_eq!(fish, [10, 11]);
}

#[test]
fn fish_start_over_when_asked() {
    assert!(restart_due(true, AppState::Menu, false, 3));
    assert!(restart_due(false, AppState::Playing, true, 3));
    assert!(!restart_due(false, AppState::Options, true, 3));
    assert!(restart_due(false, AppState::Menu, false, 0));
    assert!(starts_centred(1));
    assert!(!starts_centred(2));
}

fn args(words: &[&str]) -> Vec<String> {
    words.iter().map(|w| w.to_string()).collect()
}

#[test]
fn a_perf_run_names_its_fish() {
    assert_eq!(perf_fish_count(&args(&["boids", "300", "fish"])), 300);
    assert_eq!(perf_fish_count(&args(&["boids", "300"])), 1);
    assert_eq!(perf_fish_count(&args(&["boids", "fish"])), 1);
    assert_eq!(perf_fish_count(&args(&["fish"])), 1);
}

#[test]
fn wandering_fish_pick_new_places() {
    assert_eq!(wander(true, true), Wander::Centre);
    assert_eq!(wander(false, true), Wander::Anew);
    assert_eq!(wander(false, false), Wander::Onward);
}

fn frame(style: WaterStyle, water: bool, ripples: bool) -> PondFrame {
    PondFrame {
        style,
        water,
        ripples,
        wrapped: false,
        has_rings: false,
        food: Food { x: 60, y: 60 },
        eaten: 0,
    }
}

fn step(memo: &mut RippleMemo<i32, i32>, frame: PondFrame, heads: &[i32]) -> Vec<RippleAction> {
    memo.step_ripples(
        frame,
        &heads.to_vec(),
        0,
        |a: i32, b: i32| a != b && (a - b).abs() < 60,
        |t: i32, a: i32, b: i32| t + (a - b).abs(),
        |t: i32| t >= 26,
    )
}

#[test]
fn natural_water_is_splashed() {
    let mut memo = RippleMemo::new();
    let f = frame(WaterStyle::Natural, true, true);
    // A new school has no wake yet.
    assert_eq!(step(&mut memo, f, &[0, 100]), vec![RippleAction::ResizeGrid]);
    // One moves a little, one teleports.
    assert_eq!(
        step(&mut memo, f, &[5, 300]),
        vec![RippleAction::ResizeGrid, RippleAction::SplatWake(0)]
    );
    // The food is eaten and lands elsewhere.
    let next = Food { x: 500, y: 500 };
    assert_eq!(
        step(&mut memo, PondFrame { eaten: 1, food: next, ..f }, &[5, 300]),
        vec![
            RippleAction::ResizeGrid,
            RippleAction::SplatEaten(Food { x: 60, y: 60 }),
            RippleAction::SplatDrop(next),
        ]
    );
}

#[test]
fn drawn_water_gets_rings() {
    let mut memo = RippleMemo::new();
    let f = frame(WaterStyle::Sketch, true, true);
    assert_eq!(step(&mut memo, f, &[0]), vec![]);
    assert_eq!(step(&mut memo, f, &[20]), vec![]);
    assert_eq!(memo.travel, vec![20]);
    assert_eq!(step(&mut memo, f, &[30]), vec![RippleAction::RingWake(0)]);
    assert_eq!(memo.travel, vec![0]);
    let next = Food { x: 500, y: 500 };
    let at = Food { x: 60, y: 60 };
    assert_eq!(
        step(&mut memo, PondFrame { eaten: 1, food: next, ..f }, &[30]),
        vec![
            RippleAction::RingEaten(at, 0),
            RippleAction::RingEaten(at, 1),
            RippleAction::RingEaten(at, 2),
            RippleAction::RingDrop(next),
        ]
    );
}

#[test]
fn hidden_water_forgets() {
    let mut memo = RippleMemo::new();
    step(&mut memo, frame(WaterStyle::Natural, true, true), &[0]);
    assert!(memo.grid_was_live);
    let off = PondFrame { has_rings: true, ..frame(WaterStyle::Glossy, false, true) };
    assert_eq!(
        step(&mut memo, off, &[9]),
        vec![RippleAction::CalmGrid, RippleAction::ClearRings]
    );
    assert!(memo.heads.is_empty() && memo.food.is_none() && !memo.grid_was_live);
    // The surface calms down once.
    assert_eq!(step(&mut memo, PondFrame { has_rings: false, ..off }, &[9]), vec![]);
    // A clock that starts over drops the rings, once.
    let wrapped = PondFrame { wrapped: true, has_rings: true, ..off };
    assert_eq!(step(&mut memo, wrapped, &[9]), vec![RippleAction::ClearRings]);
}

#[test]
fn rings_have_their_own_lives_and_seeds() {
    assert_eq!([life_millis(0), life_millis(1), life_millis(2), life_millis(9)], [900, 1600, 2600, 2600]);
    let mut pool: RippleRings<i32, i32> = RippleRings::new();
    let never = |_: RingEvent<i32, i32>| false;
    pool.spawn(1, 10, 5, 0, never);
    pool.spawn(2, 20, 5, 1, never);
    assert_eq!(pool.rings[0].seed, 2_654_435_761);
    assert_eq!(pool.rings[1].seed, 2u32.wrapping_mul(2_654_435_761));
    let live = pool.live(|r: RingEvent<i32, i32>| r.born > 15);
    assert_eq!(live.len(), 1);
    assert_eq!(live[0].pos, 2);
}

#[test]
fn squiggles_need_drawn_water() {
    assert!(squiggles_on(WaterStyle::Sketch, true, true));
    assert!(!squiggles_on(WaterStyle::Natural, true, true));
    assert!(!squiggles_on(WaterStyle::Glossy, false, true));
    assert!(!squiggles_on(WaterStyle::Glossy, true, false));
}

#[test]
fn surface_steps_ignore_the_frame_rate() {
    let third = 33_333_333u64;
    let mut slow = WaveClock { acc: 0 };
    let mut fast = WaveClock { acc: 0 };
    assert_eq!(slow.advance(2 * third), 3);
    assert_eq!(fast.advance(third) + fast.advance(third), 3);
    assert_eq!(slow.acc, fast.acc);
    // A hitch is caught up with for four steps at most.
    assert_eq!(WaveClock { acc: 0 }.advance(1_000_000_000), 4);
    assert_eq!(WaveClock { acc: 0 }.advance(u64::MAX), 4);
    assert_eq!(WaveClock { acc: 0 }.advance(0), 0);
}

fn look(style: WaterStyle) -> WaterLook {
    WaterLook {
        current: ExperimentId::Fish,
        water: true,
        style,
        ripples: true,
        bubbles: true,
        some_bubbles: true,
        bubble_count: 128,
    }
}

#[test]
fn the_renderer_takes_over_the_water() {
    let mut grid: RippleGrid<i32> = RippleGrid::new();
    grid.resize_for(3, 2, 4);
    let mut pool: RippleRings<i32, i32> = RippleRings::new();
    pool.spawn(1, 10, 5, 0, |_: RingEvent<i32, i32>| false);
    let mut frame: WaterFrame<i32, i32, i32> = WaterFrame::new();
    let alive = |_: RingEvent<i32, i32>| true;

    frame.extract_water(look(WaterStyle::Natural), &grid, &pool, 0, alive);
    assert_eq!((frame.water_on, frame.ripples_live, frame.cols, frame.rows), (true, true, 3, 2));
    assert_eq!(frame.heights, vec![4; 6]);
    assert_eq!((frame.rings_on, frame.ring_verts), (false, 0));
    assert_eq!((frame.bubbles_on, frame.bubble_verts), (true, 128 * 6));

    frame.extract_water(look(WaterStyle::Glossy), &grid, &pool, 0, alive);
    assert_eq!((frame.ripples_live, frame.cols, frame.rows), (false, 1, 1));
    assert_eq!(frame.heights, vec![0]);
    assert_eq!((frame.rings_on, frame.ring_verts), (true, 6));

    let elsewhere = WaterLook { current: ExperimentId::Flow, ..look(WaterStyle::Glossy) };
    frame.extract_water(elsewhere, &grid, &pool, 0, alive);
    assert_eq!((frame.water_on, frame.rings_on, frame.bubbles_on), (false, false, false));
}

#[test]
fn layers_are_painted_around_the_fish() {
    assert_eq!(queue_water(false, true, true), vec![]);
    assert_eq!(
        queue_water(true, true, true),
        vec![
            (WaterLayer::Bed, -1000),
            (WaterLayer::Bubbles, 500),
            (WaterLayer::Surface, 750),
            (WaterLayer::Rings, 800),
        ]
    );
    assert_eq!(
        queue_water(true, false, false),
        vec![(WaterLayer::Bed, -1000), (WaterLayer::Surface, 750)]
    );
    assert_eq!(layer_draw(false, 6, true), LayerDraw::Skip);
    assert_eq!(layer_draw(true, 0, true), LayerDraw::Skip);
    assert_eq!(layer_draw(true, 6, false), LayerDraw::Unbound);
    assert_eq!(layer_draw(true, 6, true), LayerDraw::Vertices(6));
    assert_eq!(
        pipeline_label(WaterLayer::Surface, WaterStyle::Sketch),
        "fish_water_surface_sketch_pipeline"
    );
    assert_eq!(pipeline_label(WaterLayer::Rings, WaterStyle::Natural), "fish_ring_pipeline");
}

#[test]
fn fish_vertices_are_twelve_bytes() {
    let layout = fish_layout();
    assert_eq!(layout.stride, 12);
    assert_eq!(layout.step, StepMode::Vertex);
    assert_eq!(
        layout.attributes,
        vec![
            Attribute { format: AttributeFormat::Float32x2, offset: 0, location: 0 },
            Attribute { format: AttributeFormat::Unorm8x4, offset: 8, location: 1 },
        ]
    );
}

#[test]
fn a_pinch_of_food_scatters_as_it_was_dropped() {
    assert_eq!([flake_count(0), flake_count(7), flake_count(99)], [4, 7, 10]);
    assert_eq!([flake_tone(2), flake_tone(3)], [2, 0]);
    let (x, y) = (640.0f32.to_bits(), 400.0f32.to_bits());
    let (spin, flakes) = emit_food(x, y, 6);
    assert_eq!(flakes.len(), 6);
    // The same place scatters alike, number by number.
    let mut rng = FlakeRng::new(x, y);
    assert_eq!(rng.state, x.wrapping_mul(0x9E37_79B9) ^ y.rotate_left(16));
    assert_eq!(spin, rng.next());
    for flake in &flakes {
        assert_eq!(flake.angle, rng.next());
        assert_eq!(flake.dist, rng.next());
        assert_eq!(flake.rx, rng.next());
        assert_eq!(flake.ry, rng.next());
        assert_eq!(flake.turn, rng.next());
        assert_eq!(flake.tone, rng.next());
    }
    assert_ne!(emit_food(y, x, 6).0, spin);
    // One number by hand: the generator from the state zero.
    let mut zero = FlakeRng { state: 0 };
    let state = 2_891_336_453u32;
    let word = ((state >> ((state >> 28) + 4)) ^ state).wrapping_mul(277_803_737);
    assert_eq!(zero.next(), (word >> 22) ^ word);
}

#[test]
fn fish_are_painted_back_to_front() {
    assert_eq!(
        fish_parts(),
        [
            FishPart::LateralFins,
            FishPart::Tail,
            FishPart::Body,
            FishPart::DorsalFin,
            FishPart::Eyes,
        ]
    );
}

#[test]
fn every_fish_is_in_one_part() {
    assert_eq!(fish_chunks(0, 4), vec![]);
    assert_eq!(fish_chunks(15, 4), vec![(0, 15)]);
    // Three chunks per worker, of three fish each; the last has what is left.
    assert_eq!(
        fish_chunks(16, 2),
        vec![(0, 3), (3, 6), (6, 9), (9, 12), (12, 15), (15, 16)]
    );
    let parts = fish_chunks(1000, 8);
    assert_eq!(parts.len(), 24);
    assert_eq!(parts[23], (966, 1000));
}

fn triangle(n: u32) -> Mesh<u32> {
    let mut mesh = Mesh::new();
    let (a, b, c) = (mesh.vertex(n), mesh.vertex(n + 1), mesh.vertex(n + 2));
    mesh.triangle(a, b, c);
    mesh
}

#[test]
fn the_food_lies_under_the_fish() {
    let mesh = rebuild_geometry(&triangle(10), &vec![triangle(20), triangle(30)]);
    assert_eq!(mesh.vertices, vec![10, 11, 12, 20, 21, 22, 30, 31, 32]);
    assert_eq!(mesh.indices, vec![0, 1, 2, 3, 4, 5, 6, 7, 8]);
    let alone = rebuild_geometry(&Mesh::new(), &vec![triangle(20)]);
    assert_eq!(alone.indices, vec![0, 1, 2]);
}

#[test]
fn the_water_clock_starts_over_every_hour() {
    let mut clock = WaterClock { now: HOUR - 10 };
    assert!(!clock.advance(9));
    assert_eq!(clock.now, HOUR - 1);
    assert!(clock.advance(1));
    assert_eq!(clock.now, 0);
    assert!(!clock.advance(HOUR));
    assert!(!clock.advance(5));
    assert_eq!(clock.now, 5);
}

type TinyPond = Pond<i64, i64, i64>;

fn pond_look(style: WaterStyle) -> PondLook {
    PondLook {
        style,
        water: true,
        ripples: true,
        caustics: true,
        food: Food { x: 100, y: 100 },
        eaten: 0,
        cols: 4,
        rows: 3,
    }
}

/// One frame in whole numbers: splashes land on the first node, rings are born
/// now, and a step of the surface adds one.
fn run(pond: &mut TinyPond, look: PondLook, dt: u64, heads: &[i64]) -> PondNews {
    pond.frame(
        look,
        dt,
        &heads.to_vec(),
        0,
        0,
        |a: i64, b: i64| a != b,
        |t: i64, a: i64, b: i64| t + (a - b).abs(),
        |t: i64| t >= 10,
        &|_: RippleAction, _: usize, _: usize| (0, 0),
        &|_: RippleAction, v: i64, k: usize| v + 10 * (k as i64 + 1),
        &|action: RippleAction, now: u64| match action {
            RippleAction::RingWake(i) => (heads[i], now as i64, 1),
            _ => (-1, now as i64, 2),
        },
        &|r: RingEvent<i64, i64>, now: u64| (now as i64) - r.born > 5,
        &|s: Stencil<i64>| s.centre + 1,
    )
}

#[test]
fn the_natural_pond_splashes_and_catches_up() {
    let mut pond: TinyPond = Pond::new();
    let natural = pond_look(WaterStyle::Natural);
    let news = run(&mut pond, natural, 0, &[7]);
    assert_eq!(news, PondNews { cleared: false, squiggles: false });
    assert_eq!((pond.grid.cols, pond.grid.rows, pond.grid.curr.len()), (4, 3, 12));
    // The fish moves: a wake, and one step of a sixtieth of a second.
    run(&mut pond, natural, 16_666_667, &[8]);
    assert_eq!(pond.grid.curr[..6], [11, 21, 1, 1, 31, 41]);
    assert_eq!(pond.grid.prev[..6], [10, 20, 0, 0, 30, 40]);
    assert_eq!(pond.waves.acc, 16_666_667 * 60 - 1_000_000_000);
    assert!(pond.rings.rings.is_empty());
    assert_eq!(pond.clock.now, 16_666_667);
    // Another style calms the surface once.
    run(&mut pond, pond_look(WaterStyle::Sketch), 0, &[8]);
    assert!(pond.grid.curr.iter().all(|h| *h == 0));
    assert_eq!(pond.waves.acc, 0);
}

#[test]
fn drawn_ponds_leave_rings_until_they_are_hidden() {
    let mut pond: TinyPond = Pond::new();
    let sketch = pond_look(WaterStyle::Sketch);
    run(&mut pond, sketch, 3, &[0]);
    let news = run(&mut pond, PondLook { eaten: 1, ..sketch }, 4, &[12]);
    assert_eq!(news, PondNews { cleared: false, squiggles: true });
    let kinds: Vec<(i64, u32)> = pond.rings.rings.iter().map(|r| (r.pos, r.kind)).collect();
    assert_eq!(kinds, vec![(12, 0), (-1, 1), (-1, 1), (-1, 1)]);
    assert_eq!(pond.rings.rings[0].born, 7);
    pond.squiggle(&vec![50, 60], 7, 9, &|_: RingEvent<i64, i64>, _: u64| false);
    assert_eq!(pond.rings.rings[5].pos, 60);
    assert_eq!((pond.rings.rings[5].kind, pond.rings.rings[5].amp), (2, 9));
    // Hidden water has no rings.
    let news = run(&mut pond, PondLook { water: false, ..sketch }, 1, &[12]);
    assert_eq!(news, PondNews { cleared: true, squiggles: false });
    assert!(pond.rings.rings.is_empty());
}

#[test]
fn the_hour_and_another_experiment_clear_the_pond() {
    let mut pond: TinyPond = Pond::new();
    let sketch = pond_look(WaterStyle::Sketch);
    run(&mut pond, sketch, HOUR - 1, &[0]);
    run(&mut pond, sketch, 0, &[20]);
    assert_eq!(pond.rings.rings.len(), 1);
    assert!(run(&mut pond, sketch, 1, &[20]).cleared);
    assert!(pond.rings.rings.is_empty());
    run(&mut pond, sketch, 0, &[40]);
    assert!(!pond.clear_when_inactive(true, ExperimentId::Fish, 0));
    assert_eq!(pond.rings.rings.len(), 1);
    assert!(pond.clear_when_inactive(true, ExperimentId::Flow, 0));
    assert!(pond.rings.rings.is_empty());
}
