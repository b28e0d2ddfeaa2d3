//! The flow field's exact parts: the lattice, trails, builds and pictures.

use boids::fish::layers::LayerDraw;
use boids::flow::draw::{
    flow_layout, static_plan, trail_max_points, trail_verts_per_particle, FlowCopy, FlowDrawData,
    FlowLayer, FlowUpload, StaticPlan, TrailMeta, ViewStrokes,
};
use boids::flow::field::{
    cell_angle, retrace_streamlines, rk2_step, trace_streamline, FlowField,
};
use boids::flow::noise::{gradient, seed_phase, Perlin, SEED_PERIOD};
use boids::flow::palette::{
    hsv_sector, pack_color, palette_ramp, FlowPaletteLut, PaletteRamp,
};
use boids::flow::particles::{FlowParticles, RecordClock, TRAIL_CAP};
use boids::flow::settings::{FlowMode, FlowPalette, FlowSettings};
use boids::flow::state::{
    new_field, particle_work, random_seed, BuildSig, FieldWork, FlowFrame, FlowState,
    RoundedSliders,
};
use boids::flow::strokes::{
    emit_arrows, emit_gradient, emit_streamlines, emit_strokes, ribbon_feathered, Ink,
    RibbonPoint, Stroke,
};
use boids::layout::{AttributeFormat, StepMode};
use boids::mesh::Mesh;
use boids::pattern::equal;
use boids::rng::Rng;
use boids::shell::{AppState, ExperimentId};

#[test]
fn the_lattice_table_is_shuffled_twice_over() {
    let noise = Perlin::shared();
    assert_eq!(noise.perm.len(), 512);
    let mut table: Vec<u8> = noise.perm[..256].to_vec();
    assert_eq!(noise.perm[256..], table[..]);
    // Fisher-Yates over the same generator, by hand.
    let mut state: u32 = 0x9E37_79B9 | 1;
    let mut want: Vec<u8> = (0..=255).collect();
    for i in (1..256).rev() {
        state ^= state << 13;
        state ^= state >> 17;
        state ^= state << 5;
        want.swap(i, state as usize % (i + 1));
    }
    assert_eq!(table, want);
    table.sort();
    assert_eq!(table, (0..=255).collect::<Vec<u8>>());
    assert_eq!(Perlin::new(0x9E37_79B9).perm, noise.perm);
    assert_ne!(Perlin::new(7).perm, noise.perm);
}

#[test]
fn neighbouring_cells_share_corners() {
    let noise = Perlin::new(42);
    let here = noise.corner_hashes(3, -4, 5);
    let right = noise.corner_hashes(4, -4, 5);
    // The corners on the common face have the same hashes.
    assert_eq!([here[1], here[3], here[5], here[7]], [right[0], right[2], right[4], right[6]]);
    assert_eq!(here, noise.corner_hashes(3 + 256, -4 - 256, 5));
}

#[test]
fn gradients_are_edges_of_a_cube() {
    let want: [(i8, i8, i8); 16] = [
        (1, 1, 0),
        (-1, 1, 0),
        (1, -1, 0),
        (-1, -1, 0),
        (1, 0, 1),
        (-1, 0, 1),
        (1, 0, -1),
        (-1, 0, -1),
        (0, 1, 1),
        (0, -1, 1),
        (0, 1, -1),
        (0, -1, -1),
        (1, 1, 0),
        (0, -1, 1),
        (-1, 1, 0),
        (0, -1, -1),
    ];
    for hash in 0..=255u8 {
        assert_eq!(gradient(hash), want[hash as usize % 16]);
    }
}

#[test]
fn seeds_pan_the_lattice() {
    assert_eq!(seed_phase(0), (0, 0));
    assert_eq!(seed_phase(1), (11, 67));
    assert_eq!(seed_phase(25_600), (0, 67 * 25_600 % 256_000));
    assert_eq!(seed_phase(SEED_PERIOD), (0, 0));
}

#[test]
fn warping_reads_the_moved_point() {
    // The second move sees the first one's result.
    let v = cell_angle(
        1,
        2,
        true,
        |x: i32, y: i32| x + 10 * y,
        |x: i32, y: i32| y + 100 * x,
        |x: i32, y: i32| (x, y),
    );
    assert_eq!(v, (21, 2102));
    let plain = cell_angle(
        1,
        2,
        false,
        |x: i32, y: i32| x + 10 * y,
        |x: i32, y: i32| y + 100 * x,
        |x: i32, y: i32| (x, y),
    );
    assert_eq!(plain, (1, 2));
}

#[test]
fn steps_follow_the_midpoint() {
    // A direction of one on even ground and three on odd.
    let dir = |p: i32| if p % 2 == 0 { 1 } else { 3 };
    let q = rk2_step(10, &dir, &|p: i32, d: i32| p + d, &|p: i32, d: i32| p + 2 * d);
    assert_eq!(q, 16);
}

#[test]
fn lines_end_with_their_first_point_outside() {
    let line = trace_streamline(0, 10, &|p: i32| p + 3, &|p: i32| p > 7);
    assert_eq!(line, vec![0, 3, 6, 9]);
    let short = trace_streamline(0, 2, &|p: i32| p + 3, &|p: i32| p > 7);
    assert_eq!(short, vec![0, 3, 6]);
    assert_eq!(trace_streamline(5, 0, &|p: i32| p, &|_: i32| true), vec![5]);
}

#[test]
fn a_field_has_a_cell_at_least() {
    let mut field: FlowField<(usize, usize)> = FlowField::new();
    field.rebuild(0, 0, |c: usize, r: usize| (c, r));
    assert_eq!((field.cols, field.rows, field.cells.clone()), (1, 1, vec![(0, 0)]));
    field.rebuild(3, 2, |c: usize, r: usize| (c, r));
    assert_eq!(field.cells, vec![(0, 0), (1, 0), (2, 0), (0, 1), (1, 1), (2, 1)]);
}

/// Particles on a line whose places are drawn numbers.
type Line = FlowParticles<u64, u32>;

fn grown(n: usize) -> Line {
    let mut particles = Line::new();
    particles.resize(n, 0, &|a: u32, b: u32| ((a as u64) << 32) | b as u64, &|c: u32| c);
    particles
}

#[test]
fn particles_are_drawn_in_order() {
    let particles = grown(3);
    let mut rng = Rng::spread(0xF1E1D);
    for i in 0..3 {
        let (a, b, c) = (rng.draw(), rng.draw(), rng.draw());
        assert_eq!(particles.pos[i], ((a as u64) << 32) | b as u64);
        assert_eq!(particles.life[i], c);
        assert_eq!(particles.trail_iter(i), vec![particles.pos[i]]);
        assert_eq!(particles.trail[i * TRAIL_CAP + 1..(i + 1) * TRAIL_CAP], [0; TRAIL_CAP - 1]);
    }
    assert_eq!(particles.rng, rng);
}

#[test]
fn trails_keep_their_newest_samples() {
    let mut particles = Line::new();
    particles.resize(1, 0, &|_: u32, _: u32| 100, &|_: u32| 9);
    let mut want = vec![100u64];
    for k in 0..30u64 {
        // One sample is due every sixtieth of a second.
        particles.step(
            16_666_667,
            &|p: u64, l: u32| (p + 1, l, false),
            &|_: u64, b: u64, _: usize, _: usize| b,
            &|_: u32, _: u32| 0,
            &|_: u32| 9,
        );
        want.insert(0, 101 + k);
        want.truncate(TRAIL_CAP);
        assert_eq!(particles.trail_iter(0), want);
    }
    assert_eq!(particles.len[0], TRAIL_CAP as u8);
}

#[test]
fn slow_frames_record_along_the_way() {
    let mut particles = Line::new();
    particles.resize(1, 0, &|_: u32, _: u32| 0, &|_: u32| 9);
    particles.step(
        50_000_000,
        &|p: u64, l: u32| (p + 30, l, false),
        &|a: u64, b: u64, r: usize, n: usize| a + (b - a) * r as u64 / n as u64,
        &|_: u32, _: u32| 0,
        &|_: u32| 9,
    );
    assert_eq!(particles.trail_iter(0), vec![30, 20, 10, 0]);
}

#[test]
fn gone_particles_come_back_in_order() {
    let mut particles = grown(4);
    let before = particles.pos.clone();
    let mut rng = particles.rng;
    particles.step(
        16_666_667,
        &|p: u64, l: u32| (p, l, p == before[1] || p == before[3]),
        &|_: u64, b: u64, _: usize, _: usize| b,
        &|a: u32, b: u32| ((a as u64) << 32) | b as u64,
        &|c: u32| c + 1,
    );
    for i in [1, 3] {
        let (a, b, c) = (rng.draw(), rng.draw(), rng.draw());
        assert_eq!(particles.pos[i], ((a as u64) << 32) | b as u64);
        assert_eq!(particles.life[i], c + 1);
        assert_eq!(particles.trail_iter(i), vec![particles.pos[i]]);
    }
    assert_eq!((particles.pos[0], particles.pos[2]), (before[0], before[2]));
    assert_eq!(particles.trail_iter(0).len(), 2);
    assert_eq!(particles.rng, rng);
}

#[test]
fn no_particles_take_no_time() {
    let mut particles = Line::new();
    particles.step(
        1_000_000,
        &|p: u64, l: u32| (p, l, false),
        &|_: u64, b: u64, _: usize, _: usize| b,
        &|_: u32, _: u32| 0,
        &|_: u32| 9,
    );
    assert_eq!(particles.clock, RecordClock { acc: 0 });
    let mut some = grown(2);
    let rng = some.rng;
    some.clear();
    assert_eq!((some.count(), some.rng), (0, rng));
}

#[test]
fn hitches_record_no_more_than_a_trail() {
    assert_eq!(RecordClock { acc: 0 }.advance(5_000_000_000), TRAIL_CAP);
    assert_eq!(RecordClock { acc: 0 }.advance(u64::MAX), TRAIL_CAP);
    let mut clock = RecordClock { acc: 0 };
    assert_eq!(clock.advance(16_666_666), 0);
    assert_eq!(clock.advance(1), 1);
    assert_eq!(clock.acc, 20);
}

fn whole_settings() -> FlowSettings<u32> {
    FlowSettings::<i64>::default().map(|m: i64| m.unsigned_abs() as u32)
}

const ROUNDED: RoundedSliders = RoundedSliders { scale: 20, octaves: 4, detail: 100, length: 30 };

fn frame(now: u64) -> FlowFrame {
    FlowFrame {
        state: AppState::Playing,
        now,
        width: 1280,
        height: 800,
        evolving: false,
        held: false,
    }
}

#[test]
fn a_build_is_asked_for_once() {
    let mut state = FlowState::new();
    let mut s = whole_settings();
    s.mode = FlowMode::Streamlines;
    let keep_z = |z: u32| z;
    let sig = BuildSig::of(&s, ROUNDED, 1280, 800, 0);
    assert_eq!(
        state.update_field(&s, ROUNDED, frame(0), keep_z),
        FieldWork::FieldAndLines(sig)
    );
    assert_eq!((state.version, state.last_build, state.applied), (1, Some(0), Some(sig)));
    assert_eq!(state.update_field(&s, ROUNDED, frame(1), keep_z), FieldWork::Keep);
    s.mode = FlowMode::Arrows;
    let arrows = BuildSig { mode: FlowMode::Arrows, ..sig };
    assert_eq!(state.update_field(&s, ROUNDED, frame(2), keep_z), FieldWork::Field(arrows));
    assert_eq!(state.version, 2);
}

#[test]
fn held_sliders_build_fifteen_times_a_second() {
    let mut state = FlowState::new();
    let mut s = whole_settings();
    let keep_z = |z: u32| z;
    let held = |now: u64| FlowFrame { held: true, ..frame(now) };
    assert_ne!(state.update_field(&s, ROUNDED, held(0), keep_z), FieldWork::Keep);
    s.warp += 1;
    assert_eq!(state.update_field(&s, ROUNDED, held(66_666_666), keep_z), FieldWork::Keep);
    assert_ne!(state.update_field(&s, ROUNDED, held(66_666_667), keep_z), FieldWork::Keep);
    s.warp += 1;
    assert_eq!(state.update_field(&s, ROUNDED, held(66_666_668), keep_z), FieldWork::Keep);
    // Letting go builds exactly what is asked for.
    assert_ne!(state.update_field(&s, ROUNDED, frame(66_666_669), keep_z), FieldWork::Keep);
    assert_eq!(state.applied.unwrap().warp, s.warp);
}

#[test]
fn evolution_moves_while_playing() {
    let mut state = FlowState::new();
    let s = whole_settings();
    let accrue = |z: u32| z + 5;
    let evolving = |now: u64| FlowFrame { evolving: true, ..frame(now) };
    // The first build takes the axis as it stands.
    state.update_field(&s, ROUNDED, evolving(0), accrue);
    assert_eq!((state.z, state.z_accum, state.version), (5, 5, 1));
    // Too soon: the axis runs on, the field stays.
    assert_eq!(state.update_field(&s, ROUNDED, evolving(10_000_000), accrue), FieldWork::Keep);
    assert_eq!((state.z, state.z_accum), (5, 10));
    // A thirtieth of a second later the field follows.
    assert_ne!(state.update_field(&s, ROUNDED, evolving(33_333_334), accrue), FieldWork::Keep);
    assert_eq!((state.z, state.z_accum, state.version), (15, 15, 2));
    // Behind the menu it stands still.
    let menu = FlowFrame { state: AppState::Menu, ..evolving(900_000_000) };
    assert_eq!(state.update_field(&s, ROUNDED, menu, accrue), FieldWork::Keep);
    assert_eq!(state.z_accum, 15);
}

#[test]
fn restarting_takes_another_field() {
    let mut state = FlowState { z: 7, z_accum: 9, version: 3, ..FlowState::new() };
    let mut s: FlowSettings<u32> = whole_settings();
    let mut particles = grown(5);
    let mut request = false;
    let whole = |n: u32| n;
    // Typing an "r", or pressing it in the menu, is no restart.
    state.handle_restart(AppState::Playing, true, true, &mut request, &mut s, &mut particles, &whole);
    state.handle_restart(AppState::Menu, true, false, &mut request, &mut s, &mut particles, &whole);
    assert_eq!((state.z, particles.count(), s.seed), (7, 5, whole_settings().seed));
    state.handle_restart(AppState::Playing, true, false, &mut request, &mut s, &mut particles, &whole);
    assert_eq!((state.z, state.z_accum, state.version, particles.count()), (0, 0, 3, 0));
    assert!(s.seed < SEED_PERIOD);
    // A request works in every screen and is answered.
    let mut seeds = vec![];
    for _ in 0..50 {
        request = true;
        state.handle_restart(AppState::Options, false, false, &mut request, &mut s, &mut particles, &whole);
        assert!(!request && s.seed < SEED_PERIOD);
        seeds.push(s.seed);
    }
    seeds.sort();
    seeds.dedup();
    assert!(seeds.len() > 1, "seeds are drawn");
}

#[test]
fn a_new_field_keeps_the_particles() {
    let mut s: FlowSettings<u32> = whole_settings();
    new_field(&mut s, &|n: u32| 1_000_000 + n);
    assert!(s.seed >= 1_000_000 && s.seed < 1_000_000 + SEED_PERIOD);
    assert_eq!(FlowSettings { seed: 0, ..s }.scale, whole_settings().scale);
    assert!(random_seed() < SEED_PERIOD);
}

#[test]
fn a_seed_can_be_chosen() {
    let mut state = FlowState { z: 1, z_accum: 2, ..FlowState::new() };
    let mut s: FlowSettings<u32> = whole_settings();
    let mut particles = grown(2);
    state.restart_with(&mut s, &mut particles, 77, &|n: u32| n * 2);
    assert_eq!((s.seed, state.z, state.z_accum, particles.count()), (154, 0, 0, 0));
}

#[test]
fn particles_ride_where_they_are_shown() {
    assert_eq!(particle_work(false, FlowMode::Arrows, 4, 10), None);
    assert_eq!(particle_work(true, FlowMode::Arrows, 0, 10), None);
    assert_eq!(particle_work(true, FlowMode::Arrows, 4, 10), Some(10));
    assert_eq!(particle_work(false, FlowMode::Particles, 4, 0), Some(1));
}

#[test]
fn trail_vertex_pull_layout() {
    // A fade of 0.15 never reaches the cutoff within a ring; one of 0.4 does
    // after ceil(ln 0.05 / ln 0.6) = 6 samples.
    let fade = |f: f32| {
        let k = 1.0 - f;
        if k >= 0.999 { None } else { Some((0.05f32.ln() / k.ln()).ceil() as usize) }
    };
    assert_eq!(trail_max_points(fade(0.15)), 20);
    assert_eq!(trail_max_points(fade(0.4)), 7);
    assert_eq!(trail_max_points(fade(0.0)), 20);
    // 19 segments × one 6-vertex quad + the 6-vertex head dot.
    assert_eq!(trail_verts_per_particle(20), 19 * 6 + 6);
    assert_eq!(trail_verts_per_particle(7), 6 * 6 + 6);
    // Degenerate minimum still draws the dot.
    assert_eq!(trail_verts_per_particle(1), 6 + 6);
}

#[test]
fn trail_meta_color_packs_little_endian() {
    let color = pack_color(10, 20, 30);
    assert_eq!(color, u32::from_le_bytes([10, 20, 30, 255]));
    assert_eq!(color & 0xFF, 10);
    assert_eq!((color >> 8) & 0xFF, 20);
    assert_eq!((color >> 16) & 0xFF, 30);
    assert_eq!(color >> 24, 255);
}

#[test]
fn ribbon_vertex_and_index_counts() {
    let points = vec![(0.0f32, 0.0f32), (10.0, 0.0), (20.0, 5.0)];
    let mut mesh: Mesh<(f32, f32)> = Mesh::new();
    ribbon_feathered(
        &mut mesh,
        (),
        &points,
        (0.0f32, 1.0f32),
        &|a: (f32, f32), b: (f32, f32)| {
            let (dx, dy) = (b.0 - a.0, b.1 - a.1);
            let len = (dx * dx + dy * dy).sqrt();
            if len > 1e-4 { Some((-dy / len, dx / len)) } else { None }
        },
        &|_: (), p: RibbonPoint<(f32, f32), (f32, f32)>| {
            let out = |d: f32| (p.at.0 + d * p.normal.0, p.at.1 + d * p.normal.1);
            (out(2.0), out(1.0), out(-1.0), out(-2.0))
        },
    );
    assert_eq!(mesh.vertices.len(), 3 * 4);
    assert_eq!(mesh.indices.len(), 2 * 18);
    // Across the first segment, which runs along x.
    assert_eq!(mesh.vertices[0], (0.0, 2.0));
    assert_eq!(mesh.indices[..6], [0, 1, 4, 1, 5, 4]);
}

fn plain_row(t: i32, p: RibbonPoint<i32, i32>) -> (i32, i32, i32, i32) {
    (t, p.index as i32, p.at, p.normal)
}

#[test]
fn coinciding_points_keep_the_last_normal() {
    let mut mesh: Mesh<i32> = Mesh::new();
    let normal = |a: i32, b: i32| if a == b { None } else { Some(b - a) };
    ribbon_feathered(&mut mesh, 9, &vec![5, 5, 5, 8], 77, &normal, &plain_row);
    let normals: Vec<i32> = mesh.vertices.chunks(4).map(|r| r[3]).collect();
    assert_eq!(normals, vec![77, 77, 3, 3]);
    // A single point strokes nothing.
    let mut nothing: Mesh<i32> = Mesh::new();
    ribbon_feathered(&mut nothing, 9, &vec![5], 77, &normal, &plain_row);
    assert!(nothing.vertices.is_empty() && nothing.indices.is_empty());
}

#[test]
fn strokes_follow_one_another() {
    let mut mesh: Mesh<i32> = Mesh::new();
    let normal = |a: i32, b: i32| Some(b - a);
    let strokes = vec![
        Stroke { points: vec![0, 1], ink: 1 },
        Stroke { points: vec![4], ink: 2 },
        Stroke { points: vec![2, 3], ink: 3 },
    ];
    emit_strokes(&mut mesh, &strokes, 0, &normal, &plain_row);
    let inks: Vec<i32> = mesh.vertices.chunks(4).map(|r| r[0]).collect();
    assert_eq!(inks, vec![1, 1, 3, 3]);
    assert_eq!(mesh.indices.len(), 36);
    assert_eq!(mesh.indices[18], 8);
}

#[test]
fn gradient_grid_covers_the_viewport() {
    let (w, h) = (100.0f32, 60.0f32);
    let (cw, ch) = (w / 4.0, h / 3.0);
    let mut mesh: Mesh<[f32; 2]> = Mesh::new();
    emit_gradient(&mut mesh, 100, 4, 3, &|_: u32, r: usize, c: usize| {
        [c as f32 * cw - w / 2.0, h / 2.0 - r as f32 * ch]
    });
    assert_eq!(mesh.vertices.len(), 5 * 4);
    assert_eq!(mesh.indices.len(), 4 * 3 * 6);
    // Window corners → world corners (y-flipped around the center).
    assert_eq!(*mesh.vertices.first().unwrap(), [-50.0, 30.0]);
    assert_eq!(*mesh.vertices.last().unwrap(), [50.0, -30.0]);
    assert_eq!(mesh.indices[..6], [0, 1, 5, 1, 6, 5]);
    assert_eq!(mesh.indices[24..30], [5, 6, 10, 6, 11, 10]);
}

#[test]
fn arrows_have_heads_where_asked() {
    let mut field: FlowField<i32> = FlowField::new();
    field.rebuild(2, 2, |c: usize, r: usize| (10 * r + c) as i32);
    let shaft = |d: i32, r: usize, c: usize| (d, (100 * r + c) as i32);
    let barbs = |d: i32, _: usize, _: usize| (-d, -d - 1);
    let plain = emit_arrows(&field, false, &shaft, &barbs);
    assert_eq!(plain.len(), 4);
    assert_eq!(plain[3].points, vec![11, 101]);
    let headed = emit_arrows(&field, true, &shaft, &barbs);
    assert_eq!(headed.len(), 12);
    assert_eq!(headed[9].points, vec![11, 101]);
    assert_eq!(headed[10].points, vec![101, -11]);
    assert_eq!(headed[11].points, vec![101, -12]);
    assert!(matches!(headed[11].ink, Ink::Cell(11)));
}

#[test]
fn views_have_their_layers() {
    let plan = |gradient, strokes| StaticPlan { gradient, strokes };
    assert_eq!(static_plan(FlowMode::Gradient, false), plan(Some(100), ViewStrokes::Nothing));
    assert_eq!(static_plan(FlowMode::Particles, true), plan(Some(60), ViewStrokes::Nothing));
    assert_eq!(static_plan(FlowMode::Particles, false), plan(None, ViewStrokes::Nothing));
    assert_eq!(static_plan(FlowMode::Streamlines, true), plan(Some(45), ViewStrokes::Lines));
    assert_eq!(static_plan(FlowMode::Arrows, false), plan(None, ViewStrokes::Arrows));
}

fn draw(data: &mut FlowDrawData<i32, i32>, state: &FlowState, field: &FlowField<i32>, lines: &Vec<Stroke<i32, Ink<i32>>>) {
    data.emit_static(
        state,
        field,
        lines,
        &|b: u32, r: usize, c: usize| (1000 * b as usize + 10 * r + c) as i32,
        0,
        &|a: i32, b: i32| Some(b - a),
        &|t: Ink<i32>, p: RibbonPoint<i32, i32>| match t {
            Ink::Cell(d) => (d, p.at, p.normal, 1),
            Ink::Field => (-1, p.at, p.normal, 0),
        },
        &|d: i32, _: usize, _: usize| (d, d + 1),
        &|d: i32, _: usize, _: usize| (d + 2, d + 3),
    );
}

#[test]
fn the_picture_follows_the_builds() {
    let mut data: FlowDrawData<i32, i32> = FlowDrawData::new();
    let mut state = FlowState::new();
    let mut field: FlowField<i32> = FlowField::new();
    let lines = emit_streamlines(vec![vec![1, 2, 3], vec![9]]);
    // Nothing was built: nothing is drawn.
    draw(&mut data, &state, &field, &lines);
    assert_eq!(data.static_version, None);

    field.rebuild(2, 1, |c: usize, _: usize| c as i32);
    let mut s = whole_settings();
    s.mode = FlowMode::Streamlines;
    s.background = true;
    state.update_field(&s, ROUNDED, frame(0), |z: u32| z);
    draw(&mut data, &state, &field, &lines);
    assert_eq!(data.static_version, Some(1));
    // Six corners at the dimmed brightness, and one ribbon of three points.
    assert_eq!(data.mesh.vertices.len(), 6 + 12);
    assert_eq!(data.mesh.vertices[5], 45_012);
    assert_eq!(data.mesh.vertices[6..10], [-1, 1, 1, 0]);
    assert_eq!(data.mesh.indices.len(), 12 + 36);
    assert_eq!(data.mesh.indices[12], 6);
    // The same build is not drawn again.
    data.mesh.clear();
    draw(&mut data, &state, &field, &lines);
    assert!(data.mesh.vertices.is_empty());

    s.mode = FlowMode::Arrows;
    s.background = false;
    s.arrowheads = true;
    state.update_field(&s, ROUNDED, frame(1), |z: u32| z);
    draw(&mut data, &state, &field, &lines);
    assert_eq!(data.mesh.vertices.len(), 2 * 3 * 8);
    s.mode = FlowMode::Particles;
    state.update_field(&s, ROUNDED, frame(2), |z: u32| z);
    draw(&mut data, &state, &field, &lines);
    assert_eq!((data.mesh.vertices.len(), data.static_version), (0, Some(3)));
}

#[test]
fn records_are_packed_for_shown_particles() {
    let mut data: FlowDrawData<i32, u64> = FlowDrawData::new();
    let particles = grown(2);
    let tint = |p: u64| (p as u8, 2, 3);
    data.pack_trails(true, FlowMode::Arrows, 4, &particles, 7, &tint);
    assert_eq!((data.meta.len(), data.max_points), (2, 7));
    assert_eq!(
        data.meta[1],
        TrailMeta {
            pos: particles.pos[1],
            head: 0,
            len: 1,
            color: pack_color(particles.pos[1] as u8, 2, 3),
        }
    );
    data.pack_trails(false, FlowMode::Arrows, 4, &particles, 9, &tint);
    assert_eq!((data.meta.len(), data.max_points), (0, 7));
    data.pack_trails(false, FlowMode::Particles, 0, &particles, 9, &tint);
    assert!(data.meta.is_empty());
}

#[test]
fn leaving_the_field_drops_it() {
    let mut data: FlowDrawData<i32, u64> = FlowDrawData::new();
    let mut particles = grown(3);
    let mut state = FlowState::new();
    state.update_field(&whole_settings(), ROUNDED, frame(0), |z: u32| z);
    data.static_version = Some(1);
    data.mesh.vertex(5);
    data.clear_when_inactive(true, ExperimentId::Flow, &mut particles, &mut state);
    data.clear_when_inactive(false, ExperimentId::Fish, &mut particles, &mut state);
    assert_eq!((particles.count(), data.static_version), (3, Some(1)));
    data.clear_when_inactive(true, ExperimentId::Fish, &mut particles, &mut state);
    assert_eq!((particles.count(), data.static_version, state.applied), (0, None, None));
    assert!(data.mesh.vertices.is_empty());
    // Coming back builds and draws anew.
    assert_ne!(
        state.update_field(&whole_settings(), ROUNDED, frame(9), |z: u32| z),
        FieldWork::Keep
    );
    assert_eq!(state.version, 2);
}

#[test]
fn pictures_are_copied_when_they_change() {
    let mut data: FlowDrawData<i32, u64> = FlowDrawData::new();
    let mut upload = FlowUpload::new();
    assert_eq!(upload.extract_flow(&data), FlowCopy { trails: false, picture: false });
    assert_eq!(upload.queue_flow(), vec![]);
    data.static_version = Some(1);
    let (a, b, c) = (data.mesh.vertex(1), data.mesh.vertex(2), data.mesh.vertex(3));
    data.mesh.triangle(a, b, c);
    assert_eq!(upload.extract_flow(&data), FlowCopy { trails: false, picture: true });
    assert_eq!((upload.static_index_count, upload.static_dirty), (3, true));
    assert!(upload.prepare_flow());
    assert!(!upload.prepare_flow());
    assert_eq!(upload.extract_flow(&data), FlowCopy { trails: false, picture: false });
    assert_eq!(upload.queue_flow(), vec![(FlowLayer::Picture, 0)]);
    data.pack_trails(true, FlowMode::Arrows, 1, &grown(2), 7, &|_: u64| (1, 2, 3));
    assert_eq!(upload.extract_flow(&data), FlowCopy { trails: true, picture: false });
    assert_eq!(upload.queue_flow(), vec![(FlowLayer::Picture, 0), (FlowLayer::Trails, 1)]);
    assert_eq!(upload.trails_draw(false), LayerDraw::Unbound);
    assert_eq!(upload.trails_draw(true), LayerDraw::Vertices(2 * 42));
    assert_eq!(FlowUpload::new().trails_draw(true), LayerDraw::Skip);
}

#[test]
fn flow_vertices_are_twelve_bytes() {
    let layout = flow_layout();
    assert_eq!((layout.stride, layout.step), (12, StepMode::Vertex));
    assert_eq!(layout.attributes[1].format, AttributeFormat::Unorm8x4);
    assert_eq!(layout.attributes[1].offset, 8);
}

fn palette_srgb(palette: FlowPalette, t: f32) -> [f32; 3] {
    match palette_ramp(palette) {
        PaletteRamp::Hsv { hue, hue_span, saturation, value, value_span } => hsv2rgb(
            hue as f32 + t * hue_span as f32,
            saturation as f32,
            value as f32 + t * value_span as f32,
        ),
        PaletteRamp::Grey { base, span } => {
            let v = base as f32 / 1000.0 + span as f32 / 1000.0 * t;
            [v, v, v]
        }
    }
}

fn hsv2rgb(h: f32, s: f32, v: f32) -> [f32; 3] {
    let h = (h / 360.0).rem_euclid(1.0);
    let s = s / 100.0;
    let v = v / 100.0;
    let i = (h * 6.0).floor();
    let f = h * 6.0 - i;
    let p = v * (1.0 - s);
    let q = v * (1.0 - f * s);
    let t = v * (1.0 - (1.0 - f) * s);
    let (r, g, b) = hsv_sector(i as i32, v, p, q, t);
    [r, g, b]
}

#[test]
fn hsv2rgb_matches_lua_spot_values() {
    let [r, g, b] = hsv2rgb(0.0, 80.0, 95.0);
    assert!((r - 0.95).abs() < 1e-5);
    assert!((g - 0.19).abs() < 1e-5);
    assert!((b - 0.19).abs() < 1e-5);
    let [r, g, b] = hsv2rgb(120.0, 100.0, 100.0);
    assert!((r - 0.0).abs() < 1e-5);
    assert!((g - 1.0).abs() < 1e-5);
    assert!((b - 0.0).abs() < 1e-5);
    // Achromatic.
    let [r, g, b] = hsv2rgb(200.0, 0.0, 50.0);
    assert!((r - 0.5).abs() < 1e-5 && (g - 0.5).abs() < 1e-5 && (b - 0.5).abs() < 1e-5);
}

#[test]
fn palettes_are_bounded() {
    for palette in FlowPalette::all() {
        for i in 0..=100 {
            let t = i as f32 / 100.0;
            let rgb = palette_srgb(palette, t);
            for c in rgb {
                assert!((0.0..=1.0).contains(&c), "{palette:?} t={t}: {rgb:?}");
            }
        }
    }
    let m = palette_srgb(FlowPalette::Mono, 0.4);
    assert!((m[0] - 0.5).abs() < 1e-5 && m[0] == m[1] && m[1] == m[2]);
}

#[test]
fn hue_sectors_wrap_both_ways() {
    let parts = |s: i32| hsv_sector(s, 'v', 'p', 'q', 't');
    let want = [
        ('v', 't', 'p'),
        ('q', 'v', 'p'),
        ('p', 'v', 't'),
        ('p', 'q', 'v'),
        ('t', 'p', 'v'),
        ('v', 'p', 'q'),
    ];
    for s in -12..12i32 {
        assert_eq!(parts(s), want[s.rem_euclid(6) as usize]);
    }
    assert_eq!(parts(i32::MIN), want[i32::MIN.rem_euclid(6) as usize]);
}

#[test]
fn palettes_are_baked_once() {
    let mut lut: FlowPaletteLut<usize> = FlowPaletteLut::new(0);
    lut.ensure(FlowPalette::Fire, &|_: FlowPalette, i: usize| 2 * i);
    assert_eq!((lut.linear(3), lut.linear(255), lut.linear(256)), (6, 510, 510));
    // The palette is there already.
    lut.ensure(FlowPalette::Fire, &|_: FlowPalette, i: usize| 3 * i);
    assert_eq!(lut.linear(3), 6);
    lut.ensure(FlowPalette::Mono, &|_: FlowPalette, i: usize| 3 * i);
    assert_eq!((lut.linear(3), lut.palette), (9, Some(FlowPalette::Mono)));
}

#[test]
fn lines_keep_their_starts_in_another_field() {
    let place = |a: u32, b: u32| (a as i64, b as i64);
    let inside = |_: (i64, i64)| false;
    let right = retrace_streamlines(7, 5, 3, place, &|p: (i64, i64)| (p.0 + 1, p.1), &inside);
    let down = retrace_streamlines(7, 5, 1, place, &|p: (i64, i64)| (p.0, p.1 + 1), &inside);
    let other = retrace_streamlines(8, 5, 1, place, &|p: (i64, i64)| (p.0, p.1 + 1), &inside);
    for i in 0..5 {
        assert_eq!((right[i].len(), down[i].len()), (7, 3));
        assert_eq!(right[i][0], down[i][0]);
        assert_eq!(right[i][6], (right[i][0].0 + 6, right[i][0].1));
        assert_ne!(down[i][0], other[i][0]);
    }
}

#[test]
fn measures_are_equal_as_numbers() {
    for (a, b) in [(1.5f32, 1.5f32), (0.0, -0.0), (1.0, 2.0), (f32::NAN, f32::NAN), (1.0, f32::NAN)] {
        assert_eq!(equal(a.to_bits(), b.to_bits()), a == b, "{a} {b}");
    }
    assert!(equal(f32::INFINITY.to_bits(), f32::INFINITY.to_bits()));
    assert!(!equal(f32::INFINITY.to_bits(), f32::NEG_INFINITY.to_bits()));
}

#[test]
fn what_is_no_number_is_built_every_time() {
    let keep = |z: u32| z;
    let mut state = FlowState::new();
    let mut s: FlowSettings<u32> = whole_settings();
    assert_ne!(state.update_field(&s, ROUNDED, frame(0), keep), FieldWork::Keep);
    assert_eq!(state.update_field(&s, ROUNDED, frame(1), keep), FieldWork::Keep);
    s.warp = f32::NAN.to_bits();
    for now in 2..5 {
        assert_ne!(state.update_field(&s, ROUNDED, frame(now), keep), FieldWork::Keep);
    }
    s.warp = 0.0f32.to_bits();
    assert_ne!(state.update_field(&s, ROUNDED, frame(5), keep), FieldWork::Keep);
    s.warp = (-0.0f32).to_bits();
    assert_eq!(state.update_field(&s, ROUNDED, frame(6), keep), FieldWork::Keep);
}

#[test]
fn particles_that_come_back_start_their_ring_over() {
    let mut particles: FlowParticles<i64, i64> = FlowParticles::new();
    let place = |a: u32, _: u32| a as i64;
    particles.resize(3, -1, &place, &|_: u32| 5);
    for i in 0..3 {
        assert_eq!((particles.head[i], particles.len[i]), (0, 1));
        assert_eq!(particles.trail[TRAIL_CAP * i], particles.pos[i]);
        assert!(particles.trail[TRAIL_CAP * i + 1..TRAIL_CAP * (i + 1)].iter().all(|p| *p == -1));
    }
    let sample = |a: i64, b: i64, r: usize, n: usize| a + (b - a) * r as i64 / n as i64;
    let second = 1_000_000_000u64;
    particles.step(second / 20, &|p: i64, l: i64| (p + 6, l - 1, false), &sample, &place, &|_: u32| 9);
    assert_eq!((particles.head[0], particles.len[0]), (3, 4));
    let kept = (particles.head.clone(), particles.len.clone(), particles.trail.clone());
    particles.resize(2, -1, &place, &|_: u32| 5);
    assert_eq!(particles.head, kept.0[..2]);
    assert_eq!(particles.len, kept.1[..2]);
    assert_eq!(particles.trail, kept.2[..2 * TRAIL_CAP]);
    let slots = particles.trail[TRAIL_CAP + 1..].to_vec();
    particles.step(0, &|p: i64, l: i64| (p, l, true), &sample, &place, &|_: u32| 9);
    assert_eq!((particles.head[1], particles.len[1], particles.life[1]), (0, 1, 9));
    assert_eq!(particles.trail[TRAIL_CAP], particles.pos[1]);
    assert_eq!(particles.trail[TRAIL_CAP + 1..], slots[..]);
}

#[test]
fn trails_are_as_long_at_any_frame_rate() {
    let place = |a: u32, _: u32| a as i64;
    let sample = |_: i64, b: i64, _: usize, _: usize| b;
    let run = |frames: u64, dt: u64| {
        let mut particles: FlowParticles<i64, i64> = FlowParticles::new();
        particles.resize(4, 0, &place, &|_: u32| 5);
        for _ in 0..frames {
            particles.step(dt, &|p: i64, l: i64| (p, l, false), &sample, &place, &|_: u32| 5);
        }
        (particles.len, particles.head, particles.clock)
    };
    assert_eq!(run(12, 16_666_667), run(6, 33_333_334));
}
