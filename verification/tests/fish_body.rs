//! The fish's spine and its weave, on real-valued points.

use std::cell::Cell;
use std::f32::consts::{PI, TAU};

use bevy::math::Vec2;
use boids::fish::body::{Fish, Spine};
use boids::fish::game::JOINTS;
use boids::fish::shape::{emit_body, emit_dorsal_fin, emit_tail, Flank};

const ANGLE_CONSTRAINT: f32 = PI / 8.0;

fn set_magnitude(v: Vec2, m: f32) -> Vec2 {
    let len = v.length();
    if len > 1e-12 { v * (m / len) } else { Vec2::ZERO }
}

fn simplify_angle(angle: f32) -> f32 {
    angle.rem_euclid(TAU)
}

fn relative_angle_diff(angle: f32, target: f32) -> f32 {
    PI - simplify_angle(angle + PI - target)
}

fn constrain_angle(angle: f32, target: f32, constraint: f32) -> f32 {
    let diff = relative_angle_diff(angle, target);
    if diff.abs() <= constraint {
        return simplify_angle(angle);
    }
    if diff > constraint {
        return simplify_angle(target - constraint);
    }
    simplify_angle(target + constraint)
}

fn arrived(head: Vec2, target: Vec2) -> bool {
    head.distance(target) < 2.0
}

fn seat(link: f32, ahead: Option<Vec2>, here: Vec2, next: Vec2) -> Vec2 {
    let mut placed = next;
    if let Some(before) = ahead {
        let prev_angle = (before - here).to_angle();
        let next_angle = (here - placed).to_angle();
        let constrained = constrain_angle(next_angle, prev_angle, ANGLE_CONSTRAINT);
        placed = here - Vec2::from_angle(constrained);
    }
    here - set_magnitude(here - placed, link)
}

fn solve(spine: &mut Spine<Vec2>, link: f32) {
    spine.update(arrived, |a: Option<Vec2>, h: Vec2, n: Vec2| seat(link, a, h, n));
}

fn delta_target(from: Vec2, goal: Vec2, m: f32) -> Vec2 {
    let d = goal - from;
    if d.length_squared() > 1e-12 { from + set_magnitude(d, m) } else { goal }
}

fn way(a: Vec2, b: Vec2) -> Vec2 {
    b - a
}

/// A fish's real-valued part.
struct Swimmer {
    fish: Fish<Vec2>,
    link: f32,
    speed: f32,
    freq: f32,
    amp: f32,
    phase: f32,
}

impl Swimmer {
    fn new(origin: Vec2, scale: f32, speed: f32) -> Swimmer {
        Swimmer {
            fish: Fish::new(Vec2::ZERO, origin),
            link: 64.0 * scale,
            speed,
            freq: 4.5,
            amp: 15.0,
            phase: PI,
        }
    }

    fn head_for(&mut self, target: Vec2, dt: f32) {
        let m = self.speed * dt;
        self.fish
            .set_target_at_speed(target, |from: Vec2, goal: Vec2| delta_target(from, goal, m), way);
    }

    fn update(&mut self, dt: f32) {
        let phase = Cell::new(self.phase);
        let (freq, amp, link) = (self.freq, self.amp, self.link);
        self.fish.update(
            |target: Vec2, d: Vec2| {
                phase.set(self.phase + dt * freq);
                let m = d.length();
                if m > 1e-6 {
                    let s = amp * phase.get().sin();
                    target + Vec2::new(-d.y / m * s, d.x / m * s)
                } else {
                    target
                }
            },
            arrived,
            |a: Option<Vec2>, h: Vec2, n: Vec2| seat(link, a, h, n),
        );
        self.phase = phase.get();
    }
}

#[test]
fn spine_trajectory_matches_lua() {
    const EXPECTED: [(f32, f32); JOINTS] = [
        (630.33351, 428.72438),
        (635.46098, 424.89436),
        (640.49679, 420.94461),
        (645.46061, 416.90474),
        (650.37374, 412.80339),
        (655.25854, 408.66833),
        (660.13771, 404.52662),
        (665.03365, 400.40475),
        (669.96781, 396.32872),
        (674.96000, 392.32397),
        (680.02774, 388.41527),
        (685.18566, 384.62635),
    ];
    let mut fish = Swimmer::new(Vec2::new(640.0, 400.0), 0.1, 200.0);
    fish.update(0.0);
    for _ in 0..90 {
        fish.head_for(Vec2::new(900.0, 300.0), 1.0 / 60.0);
        fish.update(1.0 / 60.0);
    }
    for _ in 0..90 {
        fish.head_for(Vec2::new(200.0, 600.0), 1.0 / 60.0);
        fish.update(1.0 / 60.0);
    }
    for (i, (expected, got)) in EXPECTED.iter().zip(&fish.fish.spine.joints).enumerate() {
        let d = Vec2::new(expected.0, expected.1).distance(*got);
        assert!(d < 0.05, "joint {i}: {got} vs {expected:?} (off {d})");
    }
}

#[test]
fn settle_spreads_joints() {
    let mut spine = Spine::new(Vec2::ZERO, Vec2::new(640.0, 400.0));
    solve(&mut spine, 6.4);
    assert_eq!(spine.joints[0], Vec2::new(640.0, 400.0));
    for i in 0..JOINTS - 1 {
        let d = spine.joints[i].distance(spine.joints[i + 1]);
        assert!((d - 6.4).abs() < 1e-3, "link {i} = {d}");
    }
    // Trailing toward (0,0): joint 1 sits between head and origin.
    assert!(spine.joints[1].x < 640.0 && spine.joints[1].y < 400.0);
}

#[test]
fn fabrik_early_out_freezes_chain() {
    let mut spine = Spine::new(Vec2::ZERO, Vec2::new(100.0, 100.0));
    solve(&mut spine, 6.4);
    let before = spine.joints.clone();
    spine.target = Vec2::new(101.0, 100.0); // < 2px away
    solve(&mut spine, 6.4);
    assert_eq!(before, spine.joints);
}

#[test]
fn angle_constraint_limits_bend() {
    let mut spine = Spine::new(Vec2::ZERO, Vec2::new(0.0, 0.0));
    // Straight line along +x: head at 0, tail toward +x.
    for (i, joint) in spine.joints.iter_mut().enumerate() {
        *joint = Vec2::new(10.0 * i as f32, 0.0);
    }
    // Yank the head backwards over the body.
    spine.target = Vec2::new(25.0, 0.5);
    solve(&mut spine, 10.0);
    for i in 1..JOINTS - 1 {
        let a = (spine.joints[i - 1] - spine.joints[i]).to_angle();
        let b = (spine.joints[i] - spine.joints[i + 1]).to_angle();
        let diff = relative_angle_diff(b, a).abs();
        assert!(diff <= ANGLE_CONSTRAINT + 1e-3, "joint {i} bent {diff}");
    }
}

#[test]
fn target_at_speed_and_wave() {
    let mut fish = Swimmer::new(Vec2::new(0.0, 0.0), 1.0, 200.0);
    fish.update(0.0);
    fish.fish.wave = false;
    // 1s at speed 200 toward a point 100 away: overshoots to 200.
    fish.head_for(Vec2::new(100.0, 0.0), 1.0);
    assert!((fish.fish.base_target.unwrap().x - 200.0).abs() < 1e-3);

    fish.fish.wave = true;
    fish.amp = 15.0;
    fish.freq = 4.5;
    fish.phase = 0.0;
    fish.fish.base_target = Some(Vec2::new(50.0, 0.0));
    fish.fish.travel_dir = Some(Vec2::new(1.0, 0.0));
    // phase advances to dt·freq; offset = amp·sin(phase) along (-dy, dx)/m = (0, 1).
    fish.update(0.1);
    let expected = 15.0 * (0.1f32 * 4.5).sin();
    assert!((fish.fish.spine.target.y - expected).abs() < 1e-4);
    assert!((fish.fish.spine.target.x - 50.0).abs() < 1e-4);
}

#[test]
fn a_chain_follows_its_head() {
    // Each joint takes the place of the one ahead of it, in one dimension.
    let mut spine: Spine<i32> = Spine::new(0, 100);
    spine.update(|_: i32, _: i32| false, |_: Option<i32>, here: i32, _: i32| here - 5);
    let want: Vec<i32> = (0..JOINTS as i32).map(|i| 100 - 5 * i).collect();
    assert_eq!(spine.joints, want);
}

#[test]
fn a_target_may_bring_its_own_direction() {
    let mut fish: Fish<i32> = Fish::new(3, 10);
    assert_eq!(fish.head(), 3);
    fish.set_target(20, None, |a: i32, b: i32| b - a);
    assert_eq!((fish.base_target, fish.travel_dir), (Some(20), Some(17)));
    fish.set_target(20, Some(-1), |a: i32, b: i32| b - a);
    assert_eq!((fish.base_target, fish.travel_dir), (Some(20), Some(-1)));
}

fn mark(f: Flank) -> (i32, i32) {
    let n = (1000 * f.at + 10 * f.width + f.towards) as i32 + 100_000 * f.share as i32;
    (n, -n)
}

#[test]
fn the_body_has_thirteen_points_a_side() {
    let sides = emit_body(7, |left: bool, wide: bool| 2 * left as i32 + wide as i32, mark);
    assert_eq!(sides.left[..3], [7, 2, 3]);
    assert_eq!(sides.right[..3], [7, 0, 1]);
    assert_eq!(sides.left.len(), 13);
    for i in 0..10 {
        let m = mark(Flank { at: i, towards: i + 1, width: i, share: 100 });
        assert_eq!((sides.right[3 + i], sides.left[3 + i]), m);
    }
}

#[test]
fn the_tail_swaps_its_fork() {
    let sides = emit_tail(1, mark);
    let root = mark(Flank { at: 9, towards: 10, width: 10, share: 80 });
    let fork = mark(Flank { at: 11, towards: 10, width: 11, share: 120 });
    assert_eq!(sides.left, vec![root.1, fork.0, 1]);
    assert_eq!(sides.right, vec![root.0, fork.1]);
}

#[test]
fn the_dorsal_fin_bows_out() {
    let joints: Vec<i32> = (0..12).collect();
    let sides = emit_dorsal_fin(&joints, mark);
    let shares = [2, 10, 10, 10, 3];
    assert_eq!(sides.left.len(), 7);
    assert_eq!((sides.left[0], sides.left[6]), (2, 6));
    assert_eq!((sides.right[0], sides.right[6]), (2, 6));
    for (i, share) in shares.into_iter().enumerate() {
        let m = mark(Flank { at: 2 + i, towards: 3 + i, width: 2 + i, share });
        assert_eq!((sides.right[1 + i], sides.left[1 + i]), m);
    }
}
