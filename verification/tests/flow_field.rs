//! The flow field on real-valued noise: how it is built, sampled and traced,
//! and the particles that ride on it.

use std::f32::consts::TAU;

use bevy::math::Vec2;
use boids::flow::field::{cell_angle, retrace_streamlines, rk2_step, FlowField};
use boids::flow::noise::{fbm, gradient, seed_phase, Perlin, SEED_PERIOD};
use boids::flow::particles::{FlowParticles, TRAIL_CAP};
use boids::flow::settings::{FlowPalette, FlowSettings};
use boids::flow::state::{BuildSig, RoundedSliders};
use boids::rng::DRAWS;

const BOUNDS: Vec2 = Vec2::new(1280.0, 800.0);

fn fade(t: f32) -> f32 {
    t * t * t * (t * (t * 6.0 - 15.0) + 10.0)
}

fn noise3(noise: &Perlin, x: f32, y: f32, z: f32) -> f32 {
    let (fx, fy, fz) = (x.floor(), y.floor(), z.floor());
    let (xi, yi, zi) = (fx as i32, fy as i32, fz as i32);
    let (x, y, z) = (x - fx, y - fy, z - fz);
    let (u, v, w) = (fade(x), fade(y), fade(z));
    let lerp = |t: f32, a: f32, b: f32| a + t * (b - a);
    noise.noise3(
        xi,
        yi,
        zi,
        |hash: u8, k: usize| {
            let g = gradient(hash);
            let dx = x - (k & 1) as f32;
            let dy = y - ((k >> 1) & 1) as f32;
            let dz = z - (k >> 2) as f32;
            g.0 as f32 * dx + g.1 as f32 * dy + g.2 as f32 * dz
        },
        |a: f32, b: f32| lerp(u, a, b),
        |a: f32, b: f32| lerp(v, a, b),
        |a: f32, b: f32| lerp(w, a, b),
    )
}

fn noise01(noise: &Perlin, x: f32, y: f32, z: f32) -> f32 {
    (noise3(noise, x, y, z) * 0.75 + 0.5).clamp(0.0, 1.0)
}

fn layered(noise: &Perlin, x: f32, y: f32, z: f32, octaves: u32, persistence: f32) -> f32 {
    let (sum, _, _, norm) = fbm(
        (0.0f32, 1.0f32, 1.0f32, 0.0f32),
        octaves,
        |(sum, amp, freq, norm): (f32, f32, f32, f32)| {
            (
                sum + amp * noise01(noise, x * freq, y * freq, z),
                amp * persistence,
                freq * 2.0,
                norm + amp,
            )
        },
    );
    sum / norm
}

/// The offset of a seed on the lattice.
fn seed_base(seed: f32) -> Vec2 {
    Vec2::new(
        ((seed as f64) * 0.11).rem_euclid(256.0) as f32,
        ((seed as f64) * 0.067).rem_euclid(256.0) as f32,
    )
}

#[derive(Clone, Copy)]
struct Params {
    base: Vec2,
    noise_scale: f32,
    octaves: u32,
    persistence: f32,
    warp: f32,
    swirl: f32,
    z: f32,
}

impl Params {
    fn of(s: &FlowSettings<f32>, z: f32) -> Params {
        Params {
            base: seed_base(s.seed),
            noise_scale: s.noise_scale,
            octaves: s.octaves.round().max(1.0) as u32,
            persistence: s.roughness,
            warp: s.warp,
            swirl: s.swirl.to_radians(),
            z,
        }
    }

    fn angle(&self, noise: &Perlin, col: f32, row: f32) -> f32 {
        let at = |x: f32, y: f32| layered(noise, x, y, self.z, self.octaves, self.persistence);
        cell_angle(
            (col + self.base.x) * self.noise_scale,
            (row + self.base.y) * self.noise_scale,
            self.warp > 0.0,
            |x: f32, y: f32| x + self.warp * (at(x + 3.7, y + 1.2) - 0.5),
            |x: f32, y: f32| y + self.warp * (at(x + 8.3, y + 6.9) - 0.5),
            |x: f32, y: f32| at(x, y) * TAU + self.swirl,
        )
    }
}

fn settings() -> FlowSettings<f32> {
    FlowSettings::<i64>::default().map(|m: i64| m as f32 / 1000.0)
}

fn default_params() -> Params {
    Params::of(&settings(), 0.0)
}

/// A cell: its angle, and the direction that it points in.
type Cell = (f32, Vec2);

struct Field {
    grid: FlowField<Cell>,
    scale: f32,
}

impl Field {
    fn built(params: &Params, bounds: Vec2, scale: f32) -> Field {
        let noise = Perlin::shared();
        let mut grid = FlowField::new();
        grid.rebuild(
            (bounds.x / scale).floor() as usize,
            (bounds.y / scale).floor() as usize,
            |c: usize, r: usize| {
                let a = params.angle(&noise, c as f32, r as f32);
                (a, Vec2::new(a.cos(), a.sin()))
            },
        );
        Field { grid, scale }
    }

    fn angles(&self) -> Vec<f32> {
        self.grid.cells.iter().map(|c| c.0).collect()
    }

    fn rightward(mut self) -> Field {
        for cell in &mut self.grid.cells {
            cell.1 = Vec2::X;
        }
        self
    }

    fn sample_dir(&self, p: Vec2) -> Vec2 {
        if self.grid.cols == 0 || self.grid.rows == 0 {
            return Vec2::X;
        }
        let gx = (p.x / self.scale - 0.5).clamp(0.0, (self.grid.cols - 1) as f32);
        let gy = (p.y / self.scale - 0.5).clamp(0.0, (self.grid.rows - 1) as f32);
        let (c0, r0) = (gx as usize, gy as usize);
        let (fx, fy) = (gx - c0 as f32, gy - r0 as f32);
        self.grid
            .sample_dir(
                c0,
                r0,
                gx.round() as usize,
                gy.round() as usize,
                (0.0, Vec2::X),
                |a: Cell, b: Cell, c: Cell, d: Cell| {
                    let top = a.1.lerp(b.1, fx);
                    let bottom = c.1.lerp(d.1, fx);
                    let dir = top.lerp(bottom, fy);
                    let len = dir.length();
                    if len > 1e-4 { Some((0.0, dir / len)) } else { None }
                },
            )
            .1
    }

    fn step(&self, p: Vec2, dist: f32) -> Vec2 {
        rk2_step(
            p,
            &|q: Vec2| self.sample_dir(q),
            &|q: Vec2, d: Vec2| q + d * (dist * 0.5),
            &|q: Vec2, d: Vec2| q + d * dist,
        )
    }
}

fn share(draw: u32) -> f32 {
    draw as f32 / DRAWS as f32
}

fn retrace(field: &Field, seed: f32, detail: usize, length: usize) -> Vec<Vec<Vec2>> {
    retrace_streamlines(
        seed.to_bits(),
        detail,
        length,
        |a: u32, b: u32| Vec2::new(share(a) * BOUNDS.x, share(b) * BOUNDS.y),
        &|p: Vec2| field.step(p, field.scale * 0.5),
        &|p: Vec2| p.x <= 0.0 || p.x >= BOUNDS.x || p.y <= 0.0 || p.y >= BOUNDS.y,
    )
}

type Particles = FlowParticles<Vec2, f32>;

fn place(a: u32, b: u32) -> Vec2 {
    Vec2::new(share(a) * BOUNDS.x, share(b) * BOUNDS.y)
}

fn resize(particles: &mut Particles, n: usize) {
    particles.resize(n, Vec2::ZERO, &place, &|a: u32| share(a) * 4.0);
}

fn step(particles: &mut Particles, field: &Field, speed: f32, nanos: u64) {
    let dt = nanos as f32 / 1e9;
    particles.step(
        nanos,
        &|p: Vec2, life: f32| {
            let q = field.step(p, speed * dt);
            let left = life - dt;
            let out = q.x < 0.0 || q.x > BOUNDS.x || q.y < 0.0 || q.y > BOUNDS.y;
            (q, left, left <= 0.0 || out)
        },
        &|a: Vec2, b: Vec2, r: usize, n: usize| a.lerp(b, r as f32 / n as f32),
        &place,
        &|a: u32| 2.0 + share(a) * 3.0,
    );
}

#[test]
fn noise_is_deterministic_and_bounded() {
    let noise = Perlin::shared();
    for i in 0..1000 {
        let (x, y, z) = (i as f32 * 0.137, i as f32 * 0.071, i as f32 * 0.029);
        let a = noise01(&noise, x, y, z);
        let b = noise01(&noise, x, y, z);
        assert_eq!(a, b);
        assert!((0.0..=1.0).contains(&a), "noise01({x},{y},{z}) = {a}");
    }
    // Not a constant: samples spread over a decent share of [0,1].
    let samples: Vec<f32> = (0..1000)
        .map(|i| noise01(&noise, i as f32 * 0.137, i as f32 * 0.071, 0.0))
        .collect();
    let min = samples.iter().cloned().fold(1.0f32, f32::min);
    let max = samples.iter().cloned().fold(0.0f32, f32::max);
    assert!(max - min > 0.5, "noise range collapsed: [{min}, {max}]");
}

#[test]
fn noise_is_continuous() {
    let noise = Perlin::shared();
    for i in 0..500 {
        let (x, y) = (i as f32 * 0.193, i as f32 * 0.117);
        let a = noise01(&noise, x, y, 0.3);
        let b = noise01(&noise, x + 1e-3, y, 0.3);
        assert!((a - b).abs() < 0.01, "jump at ({x},{y}): {a} vs {b}");
    }
}

#[test]
fn noise_lattice_period_is_256() {
    let noise = Perlin::shared();
    for i in 0..200 {
        let (x, y, z) = (i as f32 * 0.73, i as f32 * 0.41, i as f32 * 0.13);
        let a = noise3(&noise, x, y, z);
        assert!((a - noise3(&noise, x + 256.0, y, z)).abs() < 1e-4);
        assert!((a - noise3(&noise, x, y + 256.0, z)).abs() < 1e-4);
    }
}

#[test]
fn seed_base_wraps_into_the_lattice_period() {
    let period = SEED_PERIOD as f32;
    for seed in [0.0, 1.0, 9999.0, 123_456.0, period - 1.0, period] {
        let base = seed_base(seed);
        assert!(
            (0.0..256.0).contains(&base.x) && (0.0..256.0).contains(&base.y),
            "seed {seed}: base {base} outside the lattice period"
        );
        // The exact phase of a whole seed is the one that is rounded.
        let (x, y) = seed_phase(seed as u32);
        let exact = Vec2::new(x as f32 / 100.0, y as f32 / 1000.0);
        let off = (base - exact).abs();
        let near = |d: f32| d < 1e-3 || (d - 256.0).abs() < 1e-3;
        assert!(near(off.x) && near(off.y), "seed {seed}: {base} vs {exact}");
    }
    // One full period later the pan lands on the same lattice phase.
    let a = seed_base(1234.0);
    let b = seed_base(1234.0 + period);
    assert!((a - b).length() < 1e-3, "period off: {a} vs {b}");
    assert_eq!(seed_phase(1234), seed_phase(1234 + SEED_PERIOD));
    // But seeds inside the period are distinct fields.
    assert!((seed_base(1234.0) - seed_base(1235.0)).length() > 0.05);
    assert_ne!(seed_phase(1234), seed_phase(1235));
    // A six-digit seed keeps its neighbours apart.
    let big = seed_base(200_000.0);
    let near = seed_base(200_000.25);
    assert!((near - big).length() > 0.01, "big-seed precision collapsed");
}

#[test]
fn fbm_one_octave_is_plain_noise() {
    let noise = Perlin::shared();
    for i in 0..100 {
        let (x, y) = (i as f32 * 0.31, i as f32 * 0.17);
        assert_eq!(layered(&noise, x, y, 0.0, 1, 0.5), noise01(&noise, x, y, 0.0));
    }
}

#[test]
fn evolve_axis_changes_the_field() {
    let a = Field::built(&Params { z: 0.0, ..default_params() }, BOUNDS, 20.0).angles();
    let b = Field::built(&Params { z: 0.5, ..default_params() }, BOUNDS, 20.0).angles();
    let differing = a.iter().zip(&b).filter(|(x, y)| (**x - **y).abs() > 1e-3).count();
    assert!(differing > a.len() / 2, "evolve barely moved the field");
}

#[test]
fn field_dims_match_bounds() {
    let field = Field::built(&default_params(), BOUNDS, 20.0);
    assert_eq!(field.grid.cols, 64);
    assert_eq!(field.grid.rows, 40);
    assert_eq!(field.grid.cells.len(), 64 * 40);
}

#[test]
fn field_is_deterministic_per_seed() {
    let a = Field::built(&default_params(), BOUNDS, 20.0).angles();
    let b = Field::built(&default_params(), BOUNDS, 20.0).angles();
    assert_eq!(a, b);

    let other = Params { base: seed_base(99.0), ..default_params() };
    let c = Field::built(&other, BOUNDS, 20.0).angles();
    assert_ne!(a, c);
}

#[test]
fn swirl_adds_radians() {
    let plain = Field::built(&Params { swirl: 0.0, ..default_params() }, BOUNDS, 20.0);
    let swirled = Field::built(
        &Params { swirl: 90.0f32.to_radians(), ..default_params() },
        BOUNDS,
        20.0,
    );
    for (a, b) in plain.angles().iter().zip(&swirled.angles()) {
        let delta = (b - a - 90.0f32.to_radians()).abs();
        assert!(delta < 1e-4, "swirl delta off: {delta}");
    }
}

#[test]
fn warp_changes_the_field() {
    let plain = Field::built(&default_params(), BOUNDS, 20.0).angles();
    let warped = Field::built(&Params { warp: 2.0, ..default_params() }, BOUNDS, 20.0).angles();
    assert_ne!(plain, warped);
}

fn small_field(cols: usize, rows: usize, dirs: Vec<Vec2>) -> Field {
    let cells = dirs.into_iter().map(|d| (0.0, d)).collect();
    Field { grid: FlowField { cols, rows, cells }, scale: 10.0 }
}

#[test]
fn bilinear_sample_interpolates_cell_centers() {
    let field = small_field(2, 2, vec![Vec2::X, Vec2::Y, Vec2::X, Vec2::Y]);
    // Cell centers: (5,5)=X, (15,5)=Y, (5,15)=X, (15,15)=Y.
    assert!((field.sample_dir(Vec2::new(5.0, 5.0)) - Vec2::X).length() < 1e-5);
    assert!((field.sample_dir(Vec2::new(15.0, 5.0)) - Vec2::Y).length() < 1e-5);
    // Midway between X and Y dirs: the normalized 45° mean.
    let mid = field.sample_dir(Vec2::new(10.0, 5.0));
    let expect = Vec2::new(1.0, 1.0).normalize();
    assert!((mid - expect).length() < 1e-5, "midpoint {mid}");
    // Outside the grid clamps to the edge.
    assert!((field.sample_dir(Vec2::new(-50.0, -50.0)) - Vec2::X).length() < 1e-5);
    assert!((field.sample_dir(Vec2::new(999.0, 5.0)) - Vec2::Y).length() < 1e-5);
}

#[test]
fn bilinear_sample_is_wrap_safe() {
    let e = 0.2f32;
    let field = small_field(
        2,
        1,
        vec![Vec2::new(e.cos(), e.sin()), Vec2::new(e.cos(), -e.sin())],
    );
    let mid = field.sample_dir(Vec2::new(10.0, 5.0));
    assert!((mid - Vec2::X).length() < 1e-5, "wrap midpoint {mid}");
}

#[test]
fn opposing_cells_fall_back_to_the_nearest() {
    let field = small_field(2, 1, vec![Vec2::X, Vec2::NEG_X]);
    assert_eq!(field.sample_dir(Vec2::new(10.0, 5.0)), Vec2::NEG_X);
    let empty = Field { grid: FlowField::new(), scale: 10.0 };
    assert_eq!(empty.sample_dir(Vec2::ZERO), Vec2::X);
}

#[test]
fn streamlines_terminate_and_stay_near_bounds() {
    let field = Field::built(&default_params(), BOUNDS, 20.0);
    let lines = retrace(&field, 1234.0, 300, 50);
    assert_eq!(lines.len(), 300);
    let margin = field.scale; // one step past the border at most
    for line in &lines {
        assert!(line.len() <= 50 * 2 + 1, "line too long: {}", line.len());
        assert!(!line.is_empty());
        for p in line {
            assert!(
                p.x >= -margin
                    && p.x <= BOUNDS.x + margin
                    && p.y >= -margin
                    && p.y <= BOUNDS.y + margin,
                "point far out of bounds: {p}"
            );
        }
    }
}

#[test]
fn streamlines_are_deterministic_per_seed() {
    let field = Field::built(&default_params(), BOUNDS, 20.0);
    let a = retrace(&field, 1234.0, 100, 30);
    let b = retrace(&field, 1234.0, 100, 30);
    assert_eq!(a, b);
    let c = retrace(&field, 1235.0, 100, 30);
    assert_ne!(a, c);
}

#[test]
fn particles_respawn_resets_the_trail() {
    // Constant rightward field: particles march off the right edge.
    let field = Field::built(&default_params(), BOUNDS, 20.0).rightward();
    let mut particles = Particles::new();
    resize(&mut particles, 32);
    // March long enough that everyone leaves the screen or ages out at
    // least once (screen width / speed < total time).
    for _ in 0..600 {
        step(&mut particles, &field, 400.0, 16_666_667);
    }
    for i in 0..particles.count() {
        let p = particles.pos[i];
        assert!(
            p.x >= 0.0 && p.x <= BOUNDS.x && p.y >= 0.0 && p.y <= BOUNDS.y,
            "particle {i} not respawned in bounds: {p}"
        );
        assert!(particles.life[i] > 0.0);
        // Trails never bridge a respawn: every stored sample is close
        // to its neighbour (a cross-screen streak would be ~1000px).
        let pts: Vec<Vec2> = particles.trail_iter(i);
        for pair in pts.windows(2) {
            assert!(
                (pair[0] - pair[1]).length() < 60.0,
                "trail streak on particle {i}: {} -> {}",
                pair[0],
                pair[1]
            );
        }
    }
}

#[test]
fn trail_recording_is_frame_rate_independent() {
    let field = Field::built(&default_params(), BOUNDS, 20.0).rightward();
    let run = |nanos: u64, steps: usize| {
        let mut particles = Particles::new();
        resize(&mut particles, 4);
        for _ in 0..steps {
            step(&mut particles, &field, 60.0, nanos);
        }
        (particles.pos.clone(), particles.len.clone())
    };
    let (pos_60, len_60) = run(16_666_667, 12);
    let (pos_30, len_30) = run(33_333_334, 6);
    assert_eq!(len_60, len_30, "sample counts diverge with dt");
    for (a, b) in pos_60.iter().zip(&pos_30) {
        assert!((a - b).length() < 1e-3, "heads diverge: {a} vs {b}");
    }
}

#[test]
fn particle_resize_up_and_down() {
    let mut particles = Particles::new();
    resize(&mut particles, 100);
    assert_eq!(particles.count(), 100);
    assert_eq!(particles.trail.len(), 100 * TRAIL_CAP);
    resize(&mut particles, 10);
    assert_eq!(particles.count(), 10);
    assert_eq!(particles.trail.len(), 10 * TRAIL_CAP);
    for i in 0..10 {
        let p = particles.pos[i];
        assert!(p.x >= 0.0 && p.x <= BOUNDS.x && p.y >= 0.0 && p.y <= BOUNDS.y);
    }
}

fn sig(s: &FlowSettings<f32>, bounds: Vec2, z: f32) -> BuildSig {
    let rounded = RoundedSliders {
        scale: s.scale.round().max(1.0).to_bits(),
        octaves: s.octaves.round().max(1.0) as u32,
        detail: s.detail.round() as usize,
        length: s.length.round() as usize,
    };
    let bits = s.map(|v: f32| v.to_bits());
    BuildSig::of(&bits, rounded, bounds.x.to_bits(), bounds.y.to_bits(), z.to_bits())
}

#[test]
fn build_signature_tracks_the_right_fields() {
    let settings = settings();
    let base = sig(&settings, BOUNDS, 0.0);

    let mut s = settings;
    s.seed += 0.25; // a fraction of one seed step — must still trigger
    assert_ne!(sig(&s, BOUNDS, 0.0), base);

    let mut s = settings;
    s.warp = 1.0;
    assert_ne!(sig(&s, BOUNDS, 0.0), base);

    let mut s = settings;
    s.palette = FlowPalette::Fire;
    assert_ne!(sig(&s, BOUNDS, 0.0), base);

    // Particle tunables never rebuild the field.
    let mut s = settings;
    s.particle_count = 9999.0;
    s.particle_speed = 999.0;
    s.trail_fade = 0.4;
    s.animate = true;
    assert_eq!(sig(&s, BOUNDS, 0.0), base);

    // The evolve z and the window size do.
    assert_ne!(sig(&settings, BOUNDS, 0.1), base);
    assert_ne!(sig(&settings, Vec2::new(640.0, 480.0), 0.0), base);
}
