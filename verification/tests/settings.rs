//! The tunable values: their ranges, their sliders and their rows.

use boids::fish::settings::{
    popup, FishCli, FishControl, FishParam, FishRow, FishSettings, WaterToggle,
};
use boids::fish::water::WaterStyle;
use boids::flock::settings::{Param, SimSettings};
use boids::flow::settings::{
    controls as flow_controls, FlowCli, FlowControl, FlowCycler, FlowMode, FlowPalette, FlowParam,
    FlowRow, FlowSettings, FlowToggle,
};
use boids::forest::settings::{
    controls as forest_controls, ForestCli, ForestControl, ForestParam, ForestSettings,
};

fn milli(m: i64) -> f32 {
    m as f32 / 1000.0
}

fn clamp(v: f32, lo: i64, hi: i64) -> f32 {
    v.clamp(milli(lo), milli(hi))
}

/// A slider's track: its range, and whether it is logarithmic.
#[derive(Clone, Copy)]
struct Track {
    lo: f32,
    hi: f32,
    log: bool,
}

impl Track {
    fn new(range: (i64, i64), log: bool) -> Track {
        Track { lo: milli(range.0), hi: milli(range.1), log }
    }

    fn t(&self, v: f32) -> f32 {
        if self.log {
            (v / self.lo).ln() / (self.hi / self.lo).ln()
        } else {
            (v - self.lo) / (self.hi - self.lo)
        }
    }

    fn value(&self, t: f32) -> f32 {
        let t = t.clamp(0.0, 1.0);
        if self.log {
            self.lo * (self.hi / self.lo).powf(t)
        } else {
            self.lo + (self.hi - self.lo) * t
        }
    }
}

fn fish_params() -> Vec<FishParam> {
    let mut all = FishParam::main().to_vec();
    all.extend(FishParam::school());
    all.extend(FishParam::weave());
    all.extend(FishParam::water());
    all.extend(FishParam::ripple());
    all.extend(FishParam::bubble());
    all
}

fn flow_params() -> Vec<FlowParam> {
    let mut all = FlowParam::of_field().to_vec();
    all.extend(FlowParam::of_streamlines());
    all.extend(FlowParam::of_strokes());
    all.extend(FlowParam::of_particles());
    all
}

fn forest_params() -> Vec<ForestParam> {
    let mut all = ForestParam::always().to_vec();
    all.extend(ForestParam::leaf());
    all
}

#[test]
fn settings_slider_mappings_roundtrip() {
    let mut fish: FishSettings<f32> = FishSettings::<i64>::default().map(milli);
    for param in fish_params() {
        let track = Track::new(param.range(), param.is_log());
        for i in 0..=20 {
            let t = i as f32 / 20.0;
            let value = track.value(t);
            param.set(&mut fish, value, clamp);
            let back = track.t(param.get(&fish));
            assert!((back - t).abs() < 1e-4, "{param:?}: t {t} -> value {value} -> t {back}");
        }
    }
    let mut flow: FlowSettings<f32> = FlowSettings::<i64>::default().map(milli);
    for param in flow_params() {
        let track = Track::new(param.range(), param.is_log());
        for i in 0..=20 {
            let t = i as f32 / 20.0;
            let value = track.value(t);
            param.set(&mut flow, value, clamp);
            let back = track.t(param.get(&flow));
            assert!((back - t).abs() < 1e-4, "{param:?}: t {t} -> value {value} -> t {back}");
        }
    }
    let mut forest: ForestSettings<f32> = ForestSettings::<i64>::default().map(milli);
    for param in forest_params() {
        let track = Track::new(param.range(), param.is_log());
        for i in 0..=20 {
            let t = i as f32 / 20.0;
            let value = track.value(t);
            param.set(&mut forest, value, clamp);
            let back = track.t(param.get(&forest));
            assert!((back - t).abs() < 1e-4, "{param:?}: t {t} -> value {value} -> t {back}");
        }
    }
}

#[test]
fn the_flock_has_five_sliders() {
    let authored = SimSettings::<i64>::default();
    let mut s: SimSettings<f32> = authored.map(milli);
    let labels = Param::all().map(|p| p.label());
    assert_eq!(labels, ["Boids", "Speed", "Separation", "Alignment", "Cohesion"]);
    assert_eq!(Param::all().map(|p| p.get(&s)), [50.0, 400.0, 1.8, 1.0, 1.0]);
    assert_eq!(
        Param::all().map(|p| p.range()),
        [
            (10_000, 1_280_000_000),
            (50_000, 1_500_000),
            (0, 8000),
            (0, 6000),
            (0, 6000)
        ]
    );
    Param::Count.set(&mut s, 1e9, clamp);
    assert_eq!((s.count, s.speed), (1_280_000.0, 400.0));
    assert!(Param::Count.is_log() && !Param::Speed.is_log());
}

#[test]
fn settings_count_log_scale_keeps_low_end_usable() {
    let fish = Track::new(FishParam::Count.range(), FishParam::Count.is_log());
    let mid = fish.value(0.5);
    assert!((8.0..=128.0).contains(&mid), "mid-track count = {mid}, low end unusable");
    assert!((fish.value(0.0) - 1.0).abs() < 1e-6);
    let flow = Track::new(FlowParam::ParticleCount.range(), FlowParam::ParticleCount.is_log());
    let mid = flow.value(0.5);
    assert!((500.0..=4000.0).contains(&mid), "mid-track count = {mid}, low end unusable");
    assert!((flow.value(0.0) - 50.0).abs() < 1e-3);
    let forest = Track::new(ForestParam::Count.range(), ForestParam::Count.is_log());
    let mid = forest.value(0.5);
    assert!((10.0..=40.0).contains(&mid), "mid-track count = {mid}, low end unusable");
    assert!((forest.value(0.0) - 1.0).abs() < 1e-3);
}

#[test]
fn cyclers_roundtrip() {
    let mut settings = FlowSettings::<i64>::default();
    for cycler in [FlowCycler::Mode, FlowCycler::Palette] {
        for index in 0..cycler.count() {
            cycler.set(&mut settings, index);
            assert_eq!(cycler.get(&settings), index, "{cycler:?} index {index}");
            assert!(!cycler.option_label(index).is_empty());
        }
    }
    assert_eq!(settings.mode, FlowMode::Particles);
    assert_eq!(settings.palette, FlowPalette::Mono);
}

#[test]
fn sliders_change_one_value() {
    let authored = FishSettings::<i64>::default();
    let keep = |v: i64, lo: i64, hi: i64| v.clamp(lo, hi);
    for param in fish_params() {
        let mut s = authored;
        let (lo, hi) = param.range();
        param.set(&mut s, hi + 5, keep);
        assert_eq!(param.get(&s), hi);
        param.set(&mut s, lo - 5, keep);
        assert_eq!(param.get(&s), lo);
        for other in fish_params() {
            if other != param {
                assert_eq!(other.get(&s), other.get(&authored));
            }
        }
    }
}

#[test]
fn authored_values_lie_on_their_tracks() {
    let (fish, flow, forest) = (
        FishSettings::<i64>::default(),
        FlowSettings::<i64>::default(),
        ForestSettings::<i64>::default(),
    );
    for p in fish_params() {
        let (lo, hi) = p.range();
        assert!(lo <= p.get(&fish) && p.get(&fish) <= hi, "{p:?}");
    }
    for p in flow_params() {
        let (lo, hi) = p.range();
        assert!(lo <= p.get(&flow) && p.get(&flow) <= hi, "{p:?}");
    }
    for p in forest_params() {
        let (lo, hi) = p.range();
        assert!(lo <= p.get(&forest) && p.get(&forest) <= hi, "{p:?}");
    }
    assert_eq!(milli(fish.start_scale), 0.05);
    assert_eq!(milli(forest.branch_angle), 0.1);
    assert_eq!((FishParam::Count.label(), ForestParam::Count.label()), ("Fish", "Trees"));
    assert_eq!(FlowParam::Seed.range(), (0, 256_000_000));
}

#[test]
fn rows_follow_their_switches() {
    let mut fish = FishSettings::<i64>::default();
    assert!(!FishRow::School.visible(&fish, 1));
    assert!(FishRow::School.visible(&fish, 2));
    assert!(FishRow::Ripple.visible(&fish, 1));
    fish.water = false;
    for row in [FishRow::Water, FishRow::Ripple, FishRow::Bubble] {
        assert!(!row.visible(&fish, 1));
    }
    assert!(FishRow::Always.visible(&fish, 1));
    let mut flow = FlowSettings::<i64>::default();
    for (mode, shown) in [
        (FlowMode::Streamlines, [true, true, false, true, true, false]),
        (FlowMode::Arrows, [false, true, true, true, true, false]),
        (FlowMode::Gradient, [false, false, false, false, true, false]),
        (FlowMode::Particles, [false, false, false, true, false, true]),
    ] {
        flow.mode = mode;
        flow.animate = false;
        let rows = [
            FlowRow::Stream,
            FlowRow::Stroke,
            FlowRow::Arrow,
            FlowRow::Background,
            FlowRow::Overlay,
            FlowRow::Particle,
        ];
        assert_eq!(rows.map(|r| r.visible(&flow)), shown, "{mode:?}");
        flow.animate = true;
        assert!(FlowRow::Particle.visible(&flow));
    }
    let mut forest = ForestSettings::<i64>::default();
    assert!(!ForestControl::Slider(ForestParam::LeafHue).visible(&forest));
    forest.leaves = true;
    assert!(ForestControl::Slider(ForestParam::LeafHue).visible(&forest));
    assert!(ForestControl::NewForest.visible(&forest));
}

#[test]
fn every_slider_has_its_place() {
    let fish = popup();
    for p in fish_params() {
        assert_eq!(fish.iter().filter(|c| c.1 == FishControl::Slider(p)).count(), 1, "{p:?}");
    }
    assert_eq!(fish.len(), 18);
    let flow = flow_controls();
    for p in flow_params() {
        assert_eq!(flow.iter().filter(|c| c.1 == FlowControl::Slider(p)).count(), 1, "{p:?}");
    }
    assert_eq!(flow.len(), 21);
    let forest = forest_controls();
    for p in forest_params() {
        assert_eq!(forest.iter().filter(|c| **c == ForestControl::Slider(p)).count(), 1, "{p:?}");
    }
    assert_eq!(forest.len(), 20);
    assert!(forest_params().into_iter().all(|p| !p.tip().is_empty()));
}

#[test]
fn toggles_flip_their_own_switch() {
    let mut fish = FishSettings::<i64>::default();
    for toggle in [WaterToggle::Water, WaterToggle::Ripples, WaterToggle::Bubbles] {
        assert!(toggle.get(&fish));
        toggle.flip(&mut fish);
        assert!(!toggle.get(&fish));
    }
    assert_eq!((fish.style, fish.wave), (WaterStyle::Natural, true));
    let mut flow = FlowSettings::<i64>::default();
    for toggle in [FlowToggle::Arrowheads, FlowToggle::Background, FlowToggle::Animate] {
        let was = toggle.get(&flow);
        toggle.flip(&mut flow);
        assert_eq!(toggle.get(&flow), !was);
        assert!(!toggle.label().is_empty() && !toggle.tip().is_empty());
    }
}

#[test]
fn arguments_tune_the_experiments() {
    let mut fish = FishSettings::<i64>::default();
    fish.apply_cli(FishCli {
        count: Some(7000),
        no_water: true,
        ripple: None,
        caustics: Some(1),
        sparkle: None,
        bubbles: None,
    });
    assert_eq!((fish.count, fish.water, fish.caustics, fish.sparkle), (7000, false, 1, 350));

    let none = FlowCli {
        count: None,
        streamlines: false,
        arrows: false,
        gradient: false,
        evolve: false,
        short_trails: false,
        worst: false,
        detail: None,
        length: None,
        seed: None,
    };
    let mut flow = FlowSettings::<i64>::default();
    flow.apply_cli(none, |m: i64| m);
    assert_eq!(flow.mode, FlowSettings::<i64>::default().mode);
    flow.apply_cli(FlowCli { arrows: true, seed: Some(9), ..none }, |m: i64| m);
    assert_eq!((flow.mode, flow.seed), (FlowMode::Arrows, 9));

    let mut forest = ForestSettings::<i64>::default();
    forest.apply_cli(
        ForestCli {
            count: Some(3),
            wind: true,
            leaves: true,
            dense: false,
            growth: Some(4),
            length: None,
            angle: None,
            forward: None,
            wind_value: None,
            leaf_density: None,
        },
        |m: i64| m,
    );
    assert_eq!((forest.count, forest.wind, forest.growth), (3, 500, 4));
    assert!(forest.leaves && forest.leaf_density == 1000);
}
