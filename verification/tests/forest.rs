//! The forest: rewriting, walking, drawing and rebuilding.

use std::f32::consts::PI;

use bevy::math::Vec2;
use boids::forest::draw::{
    forest_draws, forest_layout, ForestDraw, ForestPass, ForestRange, ForestUpload,
};
use boids::forest::geometry::{build_geometry, draw_marks, emit_leaf, emit_segment};
use boids::forest::lsystem::{
    count_segments, expand, expand_once, pick_branch, Probs, TOK_B, TOK_C, TOK_F, TOK_L, TOK_POP, TOK_PUSH, TOK_R,
    TOK_S,
};
use boids::forest::model::{budget, Forest, GeoSig, StructSig, Tree, MAX_SEGMENTS};
use boids::forest::settings::ForestSettings;
use boids::forest::turtle::{pack, placement, tip_hash, walk, wind_phase, Mark, Turtle};
use boids::layout::AttributeFormat;
use boids::mesh::Mesh;
use boids::rng::{splitmix, threshold, Rng, DRAWS};
use boids::shell::{AppState, ExperimentId};

/// The number below one that a draw stands for.
fn share(k: u32) -> f32 {
    k as f32 / DRAWS as f32
}

fn chances(no_expand: f32, forward: f32, left: f32, right: f32, center: f32) -> Probs {
    let total = left + right + center;
    Probs::of(
        |k: u32| share(k) < no_expand,
        |k: u32| share(k) < forward,
        total > 0.0,
        |k: u32| share(k) * total < left,
        |k: u32| share(k) * total < left + right,
    )
}

fn probs() -> Probs {
    chances(0.1, 0.4, 0.5, 0.5, 0.0)
}

fn count(tokens: &[u8], tok: u8) -> usize {
    tokens.iter().filter(|&&c| c == tok).count()
}

#[test]
fn axiom_expands_to_fb() {
    let mut t = vec![TOK_S];
    let mut scratch = Vec::new();
    let mut rng = Rng::new(1);
    let p = probs();
    expand_once(&mut t, &mut scratch, &mut rng, &p);
    assert_eq!(t, vec![TOK_F, TOK_B]);
}

#[test]
fn pick_branch_weighting() {
    let mut rng = Rng::new(42);
    let left = chances(0.1, 0.4, 1.0, 0.0, 0.0);
    for _ in 0..50 {
        let mut out = Vec::new();
        let f = pick_branch(&mut out, &mut rng, &left);
        assert_eq!(f, 2);
        assert_eq!(&out[..3], &[TOK_PUSH, TOK_L, TOK_L]);
    }
    let none = chances(0.1, 0.4, 0.0, 0.0, 0.0);
    let mut out = Vec::new();
    assert_eq!(pick_branch(&mut out, &mut rng, &none), 0);
    assert_eq!(out, vec![TOK_B]);
}

#[test]
fn branches_have_three_shapes() {
    let mut rng = Rng::new(42);
    let mut out = Vec::new();
    assert_eq!(pick_branch(&mut out, &mut rng, &chances(0.0, 0.0, 0.0, 1.0, 0.0)), 2);
    assert_eq!(
        out,
        vec![
            TOK_PUSH, TOK_L, TOK_F, TOK_B, TOK_POP, TOK_PUSH, TOK_R, TOK_R, TOK_F, TOK_B, TOK_POP
        ]
    );
    let mut out = Vec::new();
    let segments = pick_branch(&mut out, &mut rng, &chances(0.0, 0.0, 0.0, 0.0, 1.0));
    assert_eq!(segments as usize, count(&out, TOK_F));
    assert!(out.contains(&TOK_C));
    assert_eq!(count(&out, TOK_PUSH), count(&out, TOK_POP));
}

#[test]
fn expansion_is_deterministic_and_independent() {
    let p = probs();
    let build = |seed: u64| {
        let mut t = Vec::new();
        let mut s = Vec::new();
        expand(&mut t, &mut s, &mut Rng::new(seed), &p, 8, MAX_SEGMENTS);
        t
    };
    let seed_a = 100u64 ^ splitmix(1);
    let seed_b = 100u64 ^ splitmix(2);
    assert_eq!(build(seed_a), build(seed_a));
    assert_ne!(build(seed_a), build(seed_b));
}

#[test]
fn growth_morphs_in_place() {
    let p = probs();
    let seed = 7u64;
    let mut a = vec![TOK_S];
    let (mut sa, mut ra) = (Vec::new(), Rng::new(seed));
    for _ in 0..8 {
        expand_once(&mut a, &mut sa, &mut ra, &p);
    }
    let mut b = vec![TOK_S];
    let (mut sb, mut rb) = (Vec::new(), Rng::new(seed));
    let mut snapshot_at_8 = Vec::new();
    for i in 0..9 {
        expand_once(&mut b, &mut sb, &mut rb, &p);
        if i == 7 {
            snapshot_at_8 = b.clone();
        }
    }
    assert_eq!(a, snapshot_at_8, "first 8 iterations must be identical");
    assert!(b.len() >= a.len(), "a deeper grow is at least as long");
}

#[test]
fn budget_clamps_expansion() {
    let heavy = chances(0.0, 1.0, 1.0, 1.0, 1.0);
    let mut t = Vec::new();
    let mut s = Vec::new();
    let segs = expand(&mut t, &mut s, &mut Rng::new(3), &heavy, 30, 10_000);
    // Stops the iteration that first crosses the budget, so it overshoots by
    // at most one iteration's growth — bounded, never unbounded.
    assert!(segs <= 10_000 * 4, "segments {segs} ran away past the budget");
    assert!(count(&t, TOK_F) > 0);
    assert_eq!(segs as usize, count(&t, TOK_F));
    assert_eq!(count(&t, TOK_PUSH), count(&t, TOK_POP));
}

#[test]
fn seeds_are_mixed() {
    // The finalizer's first values, and the generator's, by hand.
    let mut z: u64 = 1u64.wrapping_add(0x9E37_79B9_7F4A_7C15);
    z = (z ^ (z >> 30)).wrapping_mul(0xBF58_476D_1CE4_E5B9);
    z = (z ^ (z >> 27)).wrapping_mul(0x94D0_49BB_1331_11EB);
    assert_eq!(splitmix(1), z ^ (z >> 31));
    let mut x: u64 = 9;
    x ^= x >> 12;
    x ^= x << 25;
    x ^= x >> 27;
    let mut rng = Rng::new(8);
    assert_eq!(rng.next_u64(), x.wrapping_mul(0x2545_F491_4F6C_DD1D));
    assert_eq!(Rng::new(0).state, 1);
    let mut other = Rng::new(8);
    assert_eq!(other.draw(), (x.wrapping_mul(0x2545_F491_4F6C_DD1D) >> 40) as u32);
    assert_eq!(wind_phase(5), (splitmix(5 ^ 0x117D_C0DE_57AB_CDEF) >> 56) as u8);
    let mut place = Rng::new(splitmix(5 ^ 0x5EED_F04E_57AB_CDEF));
    assert_eq!(placement(5), (place.draw(), place.draw()));
    assert_eq!(
        tip_hash(5, 3),
        (splitmix(5 ^ splitmix(3u64.wrapping_mul(0x100_0001))) >> 40) as u32
    );
}

#[test]
fn packed_parts_stay_apart() {
    assert_eq!(pack(3, false, 255, 128, 7), 0x0780_FF03);
    assert_eq!(pack(3, true, 0, 0, 0), 0x83);
    // A deep branch does not spill into the leaf's bit.
    assert_eq!(pack(200, false, 0, 0, 0), 0x7F);
}

/// A real-valued turtle.
#[derive(Clone, Copy, PartialEq, Debug)]
struct Pen {
    pos: Vec2,
    angle: f32,
    width: f32,
    bangle: f32,
}

#[derive(Clone, Copy)]
struct Point {
    pos: [f32; 2],
}

fn tree_mesh(tokens: &Vec<u8>, seed: u64, s: &ForestSettings<f32>, bounds: Vec2) -> Mesh<Point> {
    let (across, size) = placement(seed);
    let scale = 1.0 + (share(size) * 2.0 - 1.0) * s.size_variation;
    let root = Pen {
        pos: Vec2::new(20.0 + share(across) * (bounds.x - 40.0).max(0.0), bounds.y),
        angle: -PI,
        width: s.trunk_width * scale,
        bangle: s.branch_angle * PI,
    };
    let len = s.branch_length * scale;
    let point = |p: Vec2| Point { pos: [p.x - bounds.x * 0.5, bounds.y * 0.5 - p.y] };
    build_geometry(
        tokens,
        seed,
        if s.leaves { threshold(|k: u32| share(k) < s.leaf_density) } else { 0 },
        root,
        &|t: Pen| Pen { pos: t.pos + Vec2::new(-t.angle.sin(), t.angle.cos()) * len, ..t },
        &|t: Pen| Pen { angle: t.angle - t.bangle, ..t },
        &|t: Pen| Pen { angle: t.angle + t.bangle, ..t },
        &|t: Pen| Pen { width: t.width * 0.8, bangle: t.bangle * 0.95, ..t },
        &|a: Turtle<Pen>, b: Pen| {
            let dir = b.pos - a.at.pos;
            if dir.length_squared() < 1e-9 {
                return None;
            }
            let normal = dir.perp().normalize();
            let hw = (a.at.width * 0.5).max(0.3);
            let at = |p: Vec2, d: f32| point(p + normal * d);
            Some([
                at(a.at.pos, hw + 1.0),
                at(a.at.pos, hw),
                at(a.at.pos, -hw),
                at(a.at.pos, -hw - 1.0),
                at(b.pos, hw + 1.0),
                at(b.pos, hw),
                at(b.pos, -hw),
                at(b.pos, -hw - 1.0),
            ])
        },
        &|t: Pen| {
            let r = s.leaf_size * scale;
            [
                point(t.pos),
                point(t.pos + Vec2::Y * r),
                point(t.pos + Vec2::X * r),
                point(t.pos + Vec2::NEG_Y * r),
                point(t.pos + Vec2::NEG_X * r),
            ]
        },
    )
}

fn settings() -> ForestSettings<f32> {
    ForestSettings::<i64>::default().map(|m: i64| m as f32 / 1000.0)
}

#[test]
fn geometry_is_finite_and_grounded() {
    let s = settings();
    let bounds = Vec2::new(1280.0, 800.0);
    let mut t = Vec::new();
    let mut scratch = Vec::new();
    let p = chances(s.no_expand, s.forward, s.branch_left, s.branch_right, s.branch_center);
    expand(&mut t, &mut scratch, &mut Rng::new(123), &p, 12, MAX_SEGMENTS);
    let geo = tree_mesh(&t, 123, &s, bounds);
    assert!(!geo.vertices.is_empty() && !geo.indices.is_empty());
    for v in &geo.vertices {
        assert!(v.pos[0].is_finite() && v.pos[1].is_finite());
    }
    // Every index is in range.
    let n = geo.vertices.len() as u32;
    assert!(geo.indices.iter().all(|&i| i < n));
    // The trunk stands on the window's bottom edge.
    assert!((geo.vertices[1].pos[1] + 400.0).abs() < 1e-3);
}

fn sigs(s: &ForestSettings<f32>, bounds: Vec2) -> (StructSig, GeoSig) {
    let bits = s.map(|v: f32| v.to_bits());
    (
        StructSig::of(&bits, s.growth.floor() as u32),
        GeoSig::of(&bits, bounds.x.to_bits(), bounds.y.to_bits()),
    )
}

#[test]
fn signatures_track_the_right_fields() {
    let base = settings();
    let bounds = Vec2::new(1280.0, 800.0);
    let (bs, bg) = sigs(&base, bounds);

    let mut grown = base;
    grown.growth += 1.0;
    assert_ne!(sigs(&grown, bounds).0, bs);

    let mut shaped = base;
    shaped.branch_angle += 0.1;
    assert_ne!(sigs(&shaped, bounds).1, bg);
    assert_eq!(sigs(&shaped, bounds).0, bs);

    let mut recolored = base;
    recolored.hue = 200.0;
    recolored.brightness = 40.0;
    recolored.wind = 0.7;
    assert_eq!(sigs(&recolored, bounds).0, bs);
    assert_eq!(sigs(&recolored, bounds).1, bg);
}

/// Walk a tree on a line: ahead adds one, left and right a tenth and a
/// hundredth of a thousand, a branch a million.
fn marks(tokens: &[u8], leaves: u32) -> Vec<Mark<i64>> {
    walk(
        &tokens.to_vec(),
        9,
        leaves,
        0,
        &|t: i64| t + 1,
        &|t: i64| t + 100,
        &|t: i64| t + 10_000,
        &|t: i64| t + 1_000_000,
    )
}

#[test]
fn straight_runs_are_one_mark() {
    let m = marks(&[TOK_F, TOK_F, TOK_L, TOK_F, TOK_C, TOK_F], 0);
    assert_eq!(m.len(), 3);
    assert!(matches!(m[0], Mark::Branch(Turtle { at: 0, level: 0 }, 2)));
    assert!(matches!(m[1], Mark::Branch(Turtle { at: 102, level: 0 }, 103)));
    assert!(matches!(m[2], Mark::Branch(Turtle { at: 103, level: 0 }, 104)));
}

#[test]
fn branches_return_to_where_they_left() {
    let m = marks(&[TOK_F, TOK_PUSH, TOK_R, TOK_F, TOK_POP, TOK_F, TOK_POP], 0);
    assert_eq!(m.len(), 3);
    assert!(matches!(m[1], Mark::Branch(Turtle { at: 1_010_001, level: 1 }, 1_010_002)));
    assert!(matches!(m[2], Mark::Branch(Turtle { at: 1, level: 0 }, 2)));
}

#[test]
fn leaves_grow_at_chosen_tips() {
    let tips: Vec<u32> = (1..=4).map(|t| tip_hash(9, t)).collect();
    let some = tips[1] + 1;
    let want = tips.iter().filter(|&&h| h < some).count();
    let m = marks(&[TOK_B, TOK_B, TOK_B, TOK_B], some);
    assert_eq!(m.len(), want);
    assert!(m.iter().all(|m| matches!(m, Mark::Leaf(0))));
    assert!(marks(&[TOK_B], 0).is_empty());
    assert_eq!(marks(&[TOK_B, TOK_B], DRAWS).len(), 2);
}

#[test]
fn branches_and_leaves_have_their_triangles() {
    let mut mesh: Mesh<u32> = Mesh::new();
    emit_segment(&mut mesh, [1, 2, 3, 4, 5, 6, 7, 8]);
    assert_eq!(
        mesh.indices,
        vec![0, 1, 4, 1, 5, 4, 1, 2, 5, 2, 6, 5, 2, 3, 6, 3, 7, 6]
    );
    emit_leaf(&mut mesh, [9, 10, 11, 12, 13]);
    assert_eq!(mesh.indices[18..], [8, 9, 10, 8, 10, 11, 8, 11, 12, 8, 12, 9]);
    // A run without length is left out.
    let drawn: Mesh<i64> = draw_marks(
        &vec![
            Mark::Branch(Turtle { at: 3i64, level: 0 }, 3),
            Mark::Branch(Turtle { at: 3i64, level: 0 }, 4),
            Mark::Leaf(7),
        ],
        &|a: Turtle<i64>, b: i64| if a.at == b { None } else { Some([b; 8]) },
        &|t: i64| [t; 5],
    );
    assert_eq!(drawn.vertices.len(), 13);
    assert_eq!(drawn.indices.len(), 30);
}

fn rebuild(forest: &mut Forest<i64>, n: usize, growth: u32, geo: GeoSig, now: u64, dragging: bool) -> bool {
    let s = settings();
    let ssig = StructSig { growth, ..sigs(&s, Vec2::ONE).0 };
    forest.update_forest(
        n,
        ssig,
        geo,
        probs(),
        0,
        now,
        dragging,
        &|seed: u64| (seed % 1000) as i64,
        &|t: i64| t + 1,
        &|t: i64| t - 1,
        &|t: i64| t + 2,
        &|t: i64| t,
        &|a: Turtle<i64>, _: i64| Some([a.at; 8]),
        &|t: i64| [t; 5],
    )
}

#[test]
fn a_forest_is_built_when_something_changed() {
    let geo = sigs(&settings(), Vec2::ONE).1;
    let mut forest: Forest<i64> = Forest::new();
    forest.reseed_with(77);
    assert!(rebuild(&mut forest, 3, 5, geo, 0, false));
    assert_eq!((forest.tree_count(), forest.version), (3, 1));
    let total: u64 = forest.trees.iter().map(|t| t.segments).sum();
    assert_eq!(forest.total_segments, total);
    assert!(!rebuild(&mut forest, 3, 5, geo, 1, false));
    // More growth keeps the trees' seeds.
    let seeds: Vec<u64> = forest.trees.iter().map(|t| t.seed).collect();
    assert_eq!(seeds, (1..=3).map(|i| 77 ^ splitmix(i)).collect::<Vec<u64>>());
    assert!(rebuild(&mut forest, 4, 6, geo, 2, false));
    assert_eq!(forest.trees[..3].iter().map(|t| t.seed).collect::<Vec<u64>>(), seeds);
    // A held slider waits a fifteenth of a second.
    assert!(!rebuild(&mut forest, 4, 7, geo, 3, true));
    assert!(rebuild(&mut forest, 4, 7, geo, 66_666_669, true));
    // Nothing is drawn of no trees: there is one at least.
    assert!(rebuild(&mut forest, 0, 7, geo, 900_000_000, false));
    assert_eq!(forest.tree_count(), 1);
}

#[test]
fn trees_share_the_segments() {
    assert_eq!(budget(1), 2_000_000);
    assert_eq!(budget(0), 2_000_000);
    assert_eq!(budget(4), 500_000);
    assert_eq!(budget(1_000_000), 1024);
    let mut tree = Tree::new(5);
    let sig = sigs(&settings(), Vec2::ONE).0;
    tree.regrow(sig, &probs(), 3, 2000);
    let tokens = tree.tokens.clone();
    // Grown for the same signature already: nothing happens.
    tree.regrow(sig, &chances(0.0, 0.0, 1.0, 0.0, 0.0), 9, 2000);
    assert_eq!(tree.tokens, tokens);
    tree.regrow(StructSig { growth: 99, ..sig }, &chances(0.0, 0.0, 1.0, 0.0, 0.0), 9, 2000);
    assert_ne!(tree.tokens, tokens);
}

#[test]
fn a_new_forest_has_a_new_seed() {
    let mut forest: Forest<i64> = Forest::new();
    let mut request = true;
    forest.handle_restart(AppState::Options, false, false, &mut request);
    assert!(!request && forest.seeded);
    let mut seeds = vec![forest.seed];
    for _ in 0..4 {
        forest.handle_restart(AppState::Playing, true, false, &mut request);
        seeds.push(forest.seed);
    }
    let last = forest.seed;
    forest.handle_restart(AppState::Playing, true, true, &mut request);
    forest.handle_restart(AppState::Menu, true, false, &mut request);
    assert_eq!(forest.seed, last);
    seeds.dedup();
    assert!(seeds.len() > 1, "seeds are drawn");
}

#[test]
fn leaving_the_forest_drops_it() {
    let geo = sigs(&settings(), Vec2::ONE).1;
    let mut forest: Forest<i64> = Forest::new();
    forest.reseed_with(77);
    rebuild(&mut forest, 2, 4, geo, 0, false);
    let shown = forest.mesh.indices.clone();
    forest.clear_when_inactive(true, ExperimentId::Forest);
    assert_eq!(forest.mesh.indices, shown);
    forest.clear_when_inactive(true, ExperimentId::Flow);
    assert_eq!((forest.tree_count(), forest.total_segments, forest.version), (0, 0, 2));
    assert!(forest.mesh.indices.is_empty());
    // Coming back grows the same trees.
    assert!(rebuild(&mut forest, 2, 4, geo, 9, false));
    assert_eq!(forest.mesh.indices, shown);
}

#[test]
fn triangles_are_copied_when_they_change() {
    let geo = sigs(&settings(), Vec2::ONE).1;
    let mut forest: Forest<i64> = Forest::new();
    let mut upload = ForestUpload::new();
    assert!(upload.extract_forest(&forest));
    // There was nothing to upload.
    assert!(!upload.prepare_forest() && !upload.queue_forest());
    rebuild(&mut forest, 1, 3, geo, 0, false);
    assert!(upload.extract_forest(&forest));
    assert!(!upload.extract_forest(&forest));
    assert!(upload.prepare_forest() && upload.queue_forest());
    assert!(!upload.prepare_forest());
    assert_eq!(upload.forest_pass(0, true, true), ForestPass::Skip);
    assert_eq!(upload.forest_pass(1, false, true), ForestPass::Unbound);
    assert_eq!(upload.forest_pass(1, true, false), ForestPass::NotUploaded);
    assert_eq!(upload.forest_pass(1, true, true), ForestPass::Draw);
    assert_eq!(ForestUpload::new().forest_pass(1, true, true), ForestPass::Skip);
}

#[test]
fn draws_skip_what_cannot_be_coloured() {
    let range = |start, count| ForestRange { start, count };
    let ranges = vec![range(0, 6), range(6, 0), range(6, 9), range(15, 3)];
    assert_eq!(
        forest_draws(&ranges, 3),
        vec![
            ForestDraw { start: 0, count: 6, forest: 0 },
            ForestDraw { start: 6, count: 9, forest: 2 },
        ]
    );
    assert_eq!(forest_draws(&ranges, 9).len(), 3);
    assert_eq!(forest_draws(&ranges, 0).len(), 0);
}

#[test]
fn forest_vertices_are_twelve_bytes() {
    let layout = forest_layout();
    assert_eq!(layout.stride, 12);
    assert_eq!(layout.attributes[1].format, AttributeFormat::Uint32);
}

#[test]
fn chances_become_thresholds() {
    assert_eq!(threshold(|k: u32| share(k) < 0.25), DRAWS / 4);
    assert_eq!(threshold(|k: u32| share(k) < 0.0), 0);
    assert_eq!(threshold(|k: u32| share(k) < 1.0), DRAWS);
    assert_eq!(threshold(|k: u32| k < 7), 7);
    let p = chances(0.5, 0.75, 1.0, 2.0, 1.0);
    assert_eq!(
        (p.no_expand, p.forward, p.branches, p.left, p.left_or_right),
        (DRAWS / 2, DRAWS / 4 * 3, true, DRAWS / 4, DRAWS / 4 * 3),
    );
    assert!(!chances(0.1, 0.4, 0.0, 0.0, 0.0).branches);
}

#[test]
fn the_forest_is_capped() {
    let heavy = chances(0.0, 1.0, 0.0, 0.0, 1.0);
    let sig = StructSig { growth: 15, ..sigs(&settings(), Vec2::ONE).0 };
    // Uncapped, the last round would give 4,766,585 segments.
    let mut tree = Tree::new(5);
    tree.regrow(sig, &heavy, 15, budget(1));
    assert_eq!(tree.segments as usize, count(&tree.tokens, TOK_F));
    assert!(tree.segments <= MAX_SEGMENTS);
    let mut deeper = tree.tokens.clone();
    let mut scratch = Vec::new();
    let mut rng = Rng::new(1);
    assert!(expand_once(&mut deeper, &mut scratch, &mut rng, &heavy) > MAX_SEGMENTS);
    assert_eq!(count_segments(&scratch), tree.segments);
}

#[test]
fn other_trees_stay_when_the_count_changes() {
    let geo = sigs(&settings(), Vec2::ONE).1;
    let mut forest: Forest<i64> = Forest::new();
    forest.reseed_with(77);
    assert!(rebuild(&mut forest, 3, 5, geo, 0, false));
    let (vertices, indices) = (forest.mesh.vertices.clone(), forest.mesh.indices.clone());
    assert!(rebuild(&mut forest, 5, 5, geo, 1, false));
    assert_eq!(forest.mesh.vertices[..vertices.len()], vertices[..]);
    assert_eq!(forest.mesh.indices[..indices.len()], indices[..]);
    assert!(forest.mesh.vertices.len() > vertices.len());
    assert!(rebuild(&mut forest, 3, 5, geo, 2, false));
    assert_eq!((forest.mesh.vertices.clone(), forest.mesh.indices.clone()), (vertices, indices));
}
