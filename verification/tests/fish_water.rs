//! The pond's surface, on real-valued heights.

use bevy::math::Vec2;
use boids::fish::ripples::{RingEvent, RippleRings, RING_MAX};
use boids::fish::water::{RippleGrid, Stencil, WaterStyle};

const RIPPLE_CELL: f32 = 6.0;
const WAVE_C2: f32 = 0.42;
const WAVE_DAMP: f32 = 0.986;
const SPLAT_CLAMP: f32 = 2.0;
const RING_LIFE: [f32; 3] = [0.9, 1.6, 2.6];

fn resize_for(grid: &mut RippleGrid<f32>, bounds: Vec2) {
    let cols = (bounds.x / RIPPLE_CELL).ceil() as usize + 1;
    let rows = (bounds.y / RIPPLE_CELL).ceil() as usize + 1;
    grid.resize_for(cols, rows, 0.0);
}

fn splat(grid: &mut RippleGrid<f32>, pos: Vec2, amp: f32) {
    let gx = (pos.x / RIPPLE_CELL).clamp(0.0, (grid.cols - 1) as f32);
    let gy = (pos.y / RIPPLE_CELL).clamp(0.0, (grid.rows - 1) as f32);
    let (c0, r0) = (gx as usize, gy as usize);
    let (fx, fy) = (gx - c0 as f32, gy - r0 as f32);
    let weights = [
        (1.0 - fx) * (1.0 - fy),
        fx * (1.0 - fy),
        (1.0 - fx) * fy,
        fx * fy,
    ];
    grid.splat(c0, r0, |h: f32, k: usize| {
        (h + amp * weights[k]).clamp(-SPLAT_CLAMP, SPLAT_CLAMP)
    });
}

fn step(grid: &mut RippleGrid<f32>) {
    grid.step(&|s: Stencil<f32>| {
        let lap = s.up + s.down + s.left + s.right - 4.0 * s.centre;
        (2.0 * s.centre - s.before + WAVE_C2 * lap) * WAVE_DAMP
    });
}

fn splat_centre(grid: &mut RippleGrid<f32>) -> (usize, usize) {
    let (c, r) = (grid.cols / 2, grid.rows / 2);
    splat(
        grid,
        Vec2::new(c as f32 * RIPPLE_CELL, r as f32 * RIPPLE_CELL),
        1.0,
    );
    (c, r)
}

#[test]
fn splat_deposits_bilinearly() {
    let mut grid = RippleGrid::new();
    resize_for(&mut grid, Vec2::new(120.0, 120.0));
    let (c, r) = splat_centre(&mut grid);
    assert!((grid.curr[r * grid.cols + c] - 1.0).abs() < 1e-6);
    let total: f32 = grid.curr.iter().sum();
    assert!((total - 1.0).abs() < 1e-6, "deposit sums to amp: {total}");

    // Off-node splits over the four neighbours, conserving the total.
    grid.calm(0.0);
    splat(&mut grid, Vec2::new(RIPPLE_CELL * 1.5, RIPPLE_CELL * 2.25), 1.0);
    let total: f32 = grid.curr.iter().sum();
    assert!((total - 1.0).abs() < 1e-6, "bilinear sums to amp: {total}");
    assert!(grid.curr.iter().filter(|h| **h > 0.0).count() == 4);
}

#[test]
fn wave_spreads_into_a_ring() {
    let mut grid = RippleGrid::new();
    resize_for(&mut grid, Vec2::new(300.0, 300.0));
    let (c, r) = splat_centre(&mut grid);
    let centre = r * grid.cols + c;
    for _ in 0..8 {
        step(&mut grid);
    }
    // The peak moved off the centre node...
    let peak = grid.curr.iter().cloned().fold(f32::MIN, f32::max);
    assert!(grid.curr[centre] < peak, "centre shed its height");
    // ...to nodes a few cells away (the expanding ring).
    let ring = grid.curr[centre + 4];
    assert!(ring.abs() > 1e-4, "ring carries energy: {ring}");
}

#[test]
fn wave_decays_to_calm() {
    let mut grid = RippleGrid::new();
    resize_for(&mut grid, Vec2::new(120.0, 120.0));
    splat_centre(&mut grid);
    for _ in 0..600 {
        step(&mut grid);
    }
    let max = grid.curr.iter().fold(0.0f32, |m, h| m.max(h.abs()));
    assert!(max < 0.01, "surface calmed: {max}");
}

#[test]
fn splats_saturate() {
    let mut grid = RippleGrid::new();
    resize_for(&mut grid, Vec2::new(120.0, 120.0));
    for _ in 0..1000 {
        splat_centre(&mut grid);
    }
    let max = grid.curr.iter().fold(0.0f32, |m, h| m.max(h.abs()));
    assert!(max <= SPLAT_CLAMP + 1e-6, "clamped: {max}");
}

#[test]
fn resize_resets_only_on_change() {
    let mut grid = RippleGrid::new();
    resize_for(&mut grid, Vec2::new(300.0, 300.0));
    splat_centre(&mut grid);
    resize_for(&mut grid, Vec2::new(300.0, 300.0));
    assert!(grid.curr.iter().any(|h| *h != 0.0), "same size kept");
    resize_for(&mut grid, Vec2::new(600.0, 300.0));
    assert!(grid.curr.iter().all(|h| *h == 0.0), "resize calmed");
    assert_eq!(grid.cols, (600.0 / RIPPLE_CELL).ceil() as usize + 1);
}

/// Add a ring at `now`, to be born after a delay.
fn spawn(pool: &mut RippleRings<Vec2, f32>, now: f32, pos: Vec2, amp: f32, kind: u32, delay: f32) {
    pool.spawn(pos, now + delay, amp, kind, |r: RingEvent<Vec2, f32>| {
        now - r.born > 0.45 * RING_LIFE[(r.kind as usize).min(RING_LIFE.len() - 1)]
    });
}

#[test]
fn ring_pool_caps_and_recycles() {
    let mut rings: RippleRings<Vec2, f32> = RippleRings::new();
    for i in 0..(RING_MAX + 50) {
        spawn(&mut rings, 0.0, Vec2::new(i as f32, 0.0), 1.0, 0, 0.0);
    }
    assert_eq!(rings.rings.len(), RING_MAX, "pool capped");
    // All slots are brand new: nothing may be stolen.
    let before: Vec<f32> = rings.rings.iter().map(|r| r.pos.x).collect();
    spawn(&mut rings, 0.1, Vec2::new(-1.0, 0.0), 1.0, 0, 0.0);
    let after: Vec<f32> = rings.rings.iter().map(|r| r.pos.x).collect();
    assert_eq!(before, after, "young rings keep their slots");
    // Once the pool ages past its prime, spawns recycle slots.
    spawn(&mut rings, RING_LIFE[0], Vec2::new(-2.0, 0.0), 1.0, 0, 0.0);
    assert!(
        rings.rings.iter().any(|r| r.pos.x == -2.0),
        "an aged slot was recycled"
    );
    rings.clear();
    assert!(rings.rings.is_empty());
}

#[test]
fn wave_constants_are_stable() {
    assert!(WAVE_C2 <= 0.5, "2D CFL bound");
    assert!(WAVE_DAMP < 1.0);
    // A long, undisturbed run must not blow up (stability smoke test).
    let mut grid = RippleGrid::new();
    resize_for(&mut grid, Vec2::new(240.0, 240.0));
    splat_centre(&mut grid);
    for _ in 0..2000 {
        step(&mut grid);
    }
    assert!(grid.curr.iter().all(|h| h.is_finite()));
}

#[test]
fn a_step_reads_each_node_and_its_neighbours() {
    let mut grid: RippleGrid<i32> = RippleGrid::new();
    grid.resize_for(3, 2, 0);
    // Mark each node by its place, through a step that ignores its stencil.
    grid.curr = vec![0, 1, 2, 3, 4, 5];
    grid.prev = vec![10, 11, 12, 13, 14, 15];
    grid.step(&|s: Stencil<i32>| {
        s.centre + 10 * s.up + 100 * s.down + 1000 * s.left + 10_000 * s.right + 1_000_000 * s.before
    });
    // Node 0 is its own neighbour above and to the left.
    assert_eq!(grid.curr[0], 0 + 0 + 300 + 0 + 10_000 + 10_000_000);
    assert_eq!(grid.curr[4], 4 + 10 + 400 + 3_000 + 50_000 + 14_000_000);
    assert_eq!(grid.prev, vec![0, 1, 2, 3, 4, 5]);
}

#[test]
fn a_thin_surface_takes_no_splash() {
    let mut grid: RippleGrid<i32> = RippleGrid::new();
    assert!(grid.resize_for(1, 5, 7));
    assert!(!grid.resize_for(1, 5, 7));
    grid.splat(0, 0, |h: i32, _: usize| h + 1);
    assert_eq!(grid.curr, vec![7; 5]);
    grid.step(&|s: Stencil<i32>| s.centre + 1);
    assert_eq!(grid.curr, vec![7; 5]);
}

#[test]
fn splashes_at_the_border_fold_onto_it() {
    let mut grid: RippleGrid<i32> = RippleGrid::new();
    grid.resize_for(3, 3, 0);
    grid.splat(2, 2, |h: i32, k: usize| h + 10i32.pow(k as u32));
    // All four nodes are the last one.
    assert_eq!(grid.curr, vec![0, 0, 0, 0, 0, 0, 0, 0, 1111]);
    grid.calm(0);
    grid.splat(0, 1, |h: i32, k: usize| h + 10i32.pow(k as u32));
    assert_eq!(grid.curr, vec![0, 0, 0, 1, 10, 0, 100, 1000, 0]);
}

#[test]
fn styles_cycle_through_all_looks() {
    let mut style = WaterStyle::default();
    let mut seen = vec![];
    for _ in 0..3 {
        seen.push((style.number(), style.label()));
        style = style.next();
    }
    assert_eq!(style, WaterStyle::default());
    let numbers: Vec<u32> = seen.iter().map(|s| s.0).collect();
    assert_eq!(numbers, vec![0, 1, 2]);
}
