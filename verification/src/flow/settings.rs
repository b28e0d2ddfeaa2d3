//! The flow field's tunables.

use vstd::prelude::*;

use crate::oracle::{
    answer1, answer3, answered1, answered3, lemma_answer1, lemma_answer3, single_valued1,
    single_valued3,
};
use crate::cli::{given, given_or};

verus! {

/// The tunables of the flow field.
#[derive(Clone, Copy)]
pub struct FlowSettings<V> {
    /// Which field it is.
    pub seed: V,
    /// The size of a grid cell, in pixels.
    pub scale: V,
    /// The frequency of the noise.
    pub noise_scale: V,
    /// The layers of the noise.
    pub octaves: V,
    /// How much the finer layers count.
    pub roughness: V,
    /// How much the noise is warped by itself.
    pub warp: V,
    /// A turn of the whole field, in degrees.
    pub swirl: V,
    /// How fast the field changes.
    pub evolve: V,
    /// How many streamlines there are.
    pub detail: V,
    /// The most steps of a streamline.
    pub length: V,
    /// The width of strokes.
    pub line_width: V,
    /// How solid strokes are.
    pub opacity: V,
    /// How many particles there are.
    pub particle_count: V,
    /// How fast particles move, in pixels per second.
    pub particle_speed: V,
    /// How fast trails fade.
    pub trail_fade: V,
    /// How the field is shown.
    pub mode: FlowMode,
    /// The colours of directions.
    pub palette: FlowPalette,
    /// Whether arrows have heads.
    pub arrowheads: bool,
    /// Whether a dimmed gradient lies behind.
    pub background: bool,
    /// Whether particles ride on every view.
    pub animate: bool,
}

impl Default for FlowSettings<i64> {
    /// The authored values, in thousandths.
    fn default() -> (s: FlowSettings<i64>)
        ensures
            s == (FlowSettings {
                seed: 1_234_000i64,
                scale: 20_000i64,
                noise_scale: 20i64,
                octaves: 1000i64,
                roughness: 500i64,
                warp: 0i64,
                swirl: -100_000i64,
                evolve: 0i64,
                detail: 1_200_000i64,
                length: 50_000i64,
                line_width: 1000i64,
                opacity: 1000i64,
                particle_count: 2_000_000i64,
                particle_speed: 150_000i64,
                trail_fade: 150i64,
                mode: FlowMode::Particles,
                palette: FlowPalette::Rainbow,
                arrowheads: false,
                background: false,
                animate: false,
            }),
    {
        FlowSettings {
            seed: 1_234_000,
            scale: 20_000,
            noise_scale: 20,
            octaves: 1000,
            roughness: 500,
            warp: 0,
            swirl: -100_000,
            evolve: 0,
            detail: 1_200_000,
            length: 50_000,
            line_width: 1000,
            opacity: 1000,
            particle_count: 2_000_000,
            particle_speed: 150_000,
            trail_fade: 150,
            mode: FlowMode::Particles,
            palette: FlowPalette::Rainbow,
            arrowheads: false,
            background: false,
            animate: false,
        }
    }
}

impl<V: Copy> FlowSettings<V> {
    /// The settings with every value put through `f`.
    pub open spec fn mapped<W, F: Fn(V) -> W>(self, f: F) -> FlowSettings<W> {
        FlowSettings {
            seed: answer1(f, self.seed),
            scale: answer1(f, self.scale),
            noise_scale: answer1(f, self.noise_scale),
            octaves: answer1(f, self.octaves),
            roughness: answer1(f, self.roughness),
            warp: answer1(f, self.warp),
            swirl: answer1(f, self.swirl),
            evolve: answer1(f, self.evolve),
            detail: answer1(f, self.detail),
            length: answer1(f, self.length),
            line_width: answer1(f, self.line_width),
            opacity: answer1(f, self.opacity),
            particle_count: answer1(f, self.particle_count),
            particle_speed: answer1(f, self.particle_speed),
            trail_fade: answer1(f, self.trail_fade),
            mode: self.mode,
            palette: self.palette,
            arrowheads: self.arrowheads,
            background: self.background,
            animate: self.animate,
        }
    }

    /// The settings with every value put through `f`.
    pub fn map<W, F: Fn(V) -> W>(&self, f: F) -> (s: FlowSettings<W>)
        requires
            single_valued1(f),
            forall|v: V| f.requires((v,)),
        ensures
            s == self.mapped(f),
            f.ensures((self.seed,), s.seed),
            f.ensures((self.scale,), s.scale),
            f.ensures((self.noise_scale,), s.noise_scale),
            f.ensures((self.octaves,), s.octaves),
            f.ensures((self.roughness,), s.roughness),
            f.ensures((self.warp,), s.warp),
            f.ensures((self.swirl,), s.swirl),
            f.ensures((self.evolve,), s.evolve),
            f.ensures((self.detail,), s.detail),
            f.ensures((self.length,), s.length),
            f.ensures((self.line_width,), s.line_width),
            f.ensures((self.opacity,), s.opacity),
            f.ensures((self.particle_count,), s.particle_count),
            f.ensures((self.particle_speed,), s.particle_speed),
            f.ensures((self.trail_fade,), s.trail_fade),
    {
        let seed: W = f(self.seed);
        let scale: W = f(self.scale);
        let noise_scale: W = f(self.noise_scale);
        let octaves: W = f(self.octaves);
        let roughness: W = f(self.roughness);
        let warp: W = f(self.warp);
        let swirl: W = f(self.swirl);
        let evolve: W = f(self.evolve);
        let detail: W = f(self.detail);
        let length: W = f(self.length);
        let line_width: W = f(self.line_width);
        let opacity: W = f(self.opacity);
        let particle_count: W = f(self.particle_count);
        let particle_speed: W = f(self.particle_speed);
        let trail_fade: W = f(self.trail_fade);
        proof {
            lemma_answer1(f, self.seed, seed);
            lemma_answer1(f, self.scale, scale);
            lemma_answer1(f, self.noise_scale, noise_scale);
            lemma_answer1(f, self.octaves, octaves);
            lemma_answer1(f, self.roughness, roughness);
            lemma_answer1(f, self.warp, warp);
            lemma_answer1(f, self.swirl, swirl);
            lemma_answer1(f, self.evolve, evolve);
            lemma_answer1(f, self.detail, detail);
            lemma_answer1(f, self.length, length);
            lemma_answer1(f, self.line_width, line_width);
            lemma_answer1(f, self.opacity, opacity);
            lemma_answer1(f, self.particle_count, particle_count);
            lemma_answer1(f, self.particle_speed, particle_speed);
            lemma_answer1(f, self.trail_fade, trail_fade);
        }
        FlowSettings {
            seed,
            scale,
            noise_scale,
            octaves,
            roughness,
            warp,
            swirl,
            evolve,
            detail,
            length,
            line_width,
            opacity,
            particle_count,
            particle_speed,
            trail_fade,
            mode: self.mode,
            palette: self.palette,
            arrowheads: self.arrowheads,
            background: self.background,
            animate: self.animate,
        }
    }
}

/// The sliders of the flow field.
#[derive(Clone, Copy, Debug, PartialEq, Eq, Structural)]
pub enum FlowParam {
    Seed,
    Scale,
    NoiseScale,
    Octaves,
    Roughness,
    Warp,
    Swirl,
    Evolve,
    Detail,
    Length,
    LineWidth,
    Opacity,
    ParticleCount,
    ParticleSpeed,
    TrailFade,
}

impl FlowParam {
    /// The sliders of the field, always shown.
    pub fn of_field() -> (group: [FlowParam; 8])
        ensures
            group@ == seq![
                FlowParam::Seed,
                FlowParam::Scale,
                FlowParam::NoiseScale,
                FlowParam::Octaves,
                FlowParam::Roughness,
                FlowParam::Warp,
                FlowParam::Swirl,
                FlowParam::Evolve,
            ],
    {
        [
            FlowParam::Seed,
            FlowParam::Scale,
            FlowParam::NoiseScale,
            FlowParam::Octaves,
            FlowParam::Roughness,
            FlowParam::Warp,
            FlowParam::Swirl,
            FlowParam::Evolve,
        ]
    }

    /// The sliders of streamlines.
    pub fn of_streamlines() -> (group: [FlowParam; 2])
        ensures
            group@ == seq![
                FlowParam::Detail,
                FlowParam::Length,
            ],
    {
        [
            FlowParam::Detail,
            FlowParam::Length,
        ]
    }

    /// The sliders of strokes.
    pub fn of_strokes() -> (group: [FlowParam; 2])
        ensures
            group@ == seq![
                FlowParam::LineWidth,
                FlowParam::Opacity,
            ],
    {
        [
            FlowParam::LineWidth,
            FlowParam::Opacity,
        ]
    }

    /// The sliders of particles.
    pub fn of_particles() -> (group: [FlowParam; 3])
        ensures
            group@ == seq![
                FlowParam::ParticleCount,
                FlowParam::ParticleSpeed,
                FlowParam::TrailFade,
            ],
    {
        [
            FlowParam::ParticleCount,
            FlowParam::ParticleSpeed,
            FlowParam::TrailFade,
        ]
    }

    /// The slider's name.
    pub fn label(self) -> (name: &'static str)
        ensures
            name@ == (match self {
                FlowParam::Seed => "Seed"@,
                FlowParam::Scale => "Scale"@,
                FlowParam::NoiseScale => "Noise"@,
                FlowParam::Octaves => "Octaves"@,
                FlowParam::Roughness => "Roughness"@,
                FlowParam::Warp => "Warp"@,
                FlowParam::Swirl => "Swirl"@,
                FlowParam::Evolve => "Evolve"@,
                FlowParam::Detail => "Detail"@,
                FlowParam::Length => "Length"@,
                FlowParam::LineWidth => "Width"@,
                FlowParam::Opacity => "Opacity"@,
                FlowParam::ParticleCount => "Particles"@,
                FlowParam::ParticleSpeed => "Speed"@,
                FlowParam::TrailFade => "Trail fade"@,
            }),
    {
        match self {
            FlowParam::Seed => "Seed",
            FlowParam::Scale => "Scale",
            FlowParam::NoiseScale => "Noise",
            FlowParam::Octaves => "Octaves",
            FlowParam::Roughness => "Roughness",
            FlowParam::Warp => "Warp",
            FlowParam::Swirl => "Swirl",
            FlowParam::Evolve => "Evolve",
            FlowParam::Detail => "Detail",
            FlowParam::Length => "Length",
            FlowParam::LineWidth => "Width",
            FlowParam::Opacity => "Opacity",
            FlowParam::ParticleCount => "Particles",
            FlowParam::ParticleSpeed => "Speed",
            FlowParam::TrailFade => "Trail fade",
        }
    }

    /// The least and the greatest value, in thousandths.
    pub open spec fn bounds(self) -> (i64, i64) {
        match self {
            FlowParam::Seed => (0i64, 256_000_000i64),
            FlowParam::Scale => (4000i64, 100_000i64),
            FlowParam::NoiseScale => (2i64, 300i64),
            FlowParam::Octaves => (1000i64, 6000i64),
            FlowParam::Roughness => (50i64, 1000i64),
            FlowParam::Warp => (0i64, 5000i64),
            FlowParam::Swirl => (-180_000i64, 180_000i64),
            FlowParam::Evolve => (0i64, 3000i64),
            FlowParam::Detail => (200_000i64, 2_500_000i64),
            FlowParam::Length => (5000i64, 300_000i64),
            FlowParam::LineWidth => (500i64, 12_000i64),
            FlowParam::Opacity => (100i64, 1000i64),
            FlowParam::ParticleCount => (50_000i64, 300_000_000i64),
            FlowParam::ParticleSpeed => (10_000i64, 2_000_000i64),
            FlowParam::TrailFade => (20i64, 600i64),
        }
    }

    /// The least and the greatest value, in thousandths.
    pub fn range(self) -> (range: (i64, i64))
        ensures
            range == self.bounds(),
    {
        match self {
            FlowParam::Seed => (0, 256_000_000),
            FlowParam::Scale => (4000, 100_000),
            FlowParam::NoiseScale => (2, 300),
            FlowParam::Octaves => (1000, 6000),
            FlowParam::Roughness => (50, 1000),
            FlowParam::Warp => (0, 5000),
            FlowParam::Swirl => (-180_000, 180_000),
            FlowParam::Evolve => (0, 3000),
            FlowParam::Detail => (200_000, 2_500_000),
            FlowParam::Length => (5000, 300_000),
            FlowParam::LineWidth => (500, 12_000),
            FlowParam::Opacity => (100, 1000),
            FlowParam::ParticleCount => (50_000, 300_000_000),
            FlowParam::ParticleSpeed => (10_000, 2_000_000),
            FlowParam::TrailFade => (20, 600),
        }
    }

    /// The decimals that a value is shown with.
    pub fn decimals(self) -> (n: u32)
        ensures
            n == (match self {
                FlowParam::Seed => 0u32,
                FlowParam::Scale => 0u32,
                FlowParam::NoiseScale => 3u32,
                FlowParam::Octaves => 0u32,
                FlowParam::Roughness => 2u32,
                FlowParam::Warp => 2u32,
                FlowParam::Swirl => 0u32,
                FlowParam::Evolve => 2u32,
                FlowParam::Detail => 0u32,
                FlowParam::Length => 0u32,
                FlowParam::LineWidth => 1u32,
                FlowParam::Opacity => 2u32,
                FlowParam::ParticleCount => 0u32,
                FlowParam::ParticleSpeed => 0u32,
                FlowParam::TrailFade => 2u32,
            }),
    {
        match self {
            FlowParam::Seed => 0,
            FlowParam::Scale => 0,
            FlowParam::NoiseScale => 3,
            FlowParam::Octaves => 0,
            FlowParam::Roughness => 2,
            FlowParam::Warp => 2,
            FlowParam::Swirl => 0,
            FlowParam::Evolve => 2,
            FlowParam::Detail => 0,
            FlowParam::Length => 0,
            FlowParam::LineWidth => 1,
            FlowParam::Opacity => 2,
            FlowParam::ParticleCount => 0,
            FlowParam::ParticleSpeed => 0,
            FlowParam::TrailFade => 2,
        }
    }

    /// Whether the slider doubles its value over equal ways, so that the low
    /// end of a wide range stays usable.
    pub fn is_log(self) -> (log: bool)
        ensures
            log == (self == FlowParam::ParticleCount),
    {
        self == FlowParam::ParticleCount
    }

    /// The value that the slider shows.
    pub open spec fn field<V>(self, s: FlowSettings<V>) -> V {
        match self {
            FlowParam::Seed => s.seed,
            FlowParam::Scale => s.scale,
            FlowParam::NoiseScale => s.noise_scale,
            FlowParam::Octaves => s.octaves,
            FlowParam::Roughness => s.roughness,
            FlowParam::Warp => s.warp,
            FlowParam::Swirl => s.swirl,
            FlowParam::Evolve => s.evolve,
            FlowParam::Detail => s.detail,
            FlowParam::Length => s.length,
            FlowParam::LineWidth => s.line_width,
            FlowParam::Opacity => s.opacity,
            FlowParam::ParticleCount => s.particle_count,
            FlowParam::ParticleSpeed => s.particle_speed,
            FlowParam::TrailFade => s.trail_fade,
        }
    }

    /// The settings with the slider's value replaced.
    pub open spec fn with<V>(self, s: FlowSettings<V>, v: V) -> FlowSettings<V> {
        match self {
            FlowParam::Seed => FlowSettings { seed: v, ..s },
            FlowParam::Scale => FlowSettings { scale: v, ..s },
            FlowParam::NoiseScale => FlowSettings { noise_scale: v, ..s },
            FlowParam::Octaves => FlowSettings { octaves: v, ..s },
            FlowParam::Roughness => FlowSettings { roughness: v, ..s },
            FlowParam::Warp => FlowSettings { warp: v, ..s },
            FlowParam::Swirl => FlowSettings { swirl: v, ..s },
            FlowParam::Evolve => FlowSettings { evolve: v, ..s },
            FlowParam::Detail => FlowSettings { detail: v, ..s },
            FlowParam::Length => FlowSettings { length: v, ..s },
            FlowParam::LineWidth => FlowSettings { line_width: v, ..s },
            FlowParam::Opacity => FlowSettings { opacity: v, ..s },
            FlowParam::ParticleCount => FlowSettings { particle_count: v, ..s },
            FlowParam::ParticleSpeed => FlowSettings { particle_speed: v, ..s },
            FlowParam::TrailFade => FlowSettings { trail_fade: v, ..s },
        }
    }

    /// The value that the slider shows.
    pub fn get<V: Copy>(self, s: &FlowSettings<V>) -> (v: V)
        ensures
            v == self.field(*s),
    {
        match self {
            FlowParam::Seed => s.seed,
            FlowParam::Scale => s.scale,
            FlowParam::NoiseScale => s.noise_scale,
            FlowParam::Octaves => s.octaves,
            FlowParam::Roughness => s.roughness,
            FlowParam::Warp => s.warp,
            FlowParam::Swirl => s.swirl,
            FlowParam::Evolve => s.evolve,
            FlowParam::Detail => s.detail,
            FlowParam::Length => s.length,
            FlowParam::LineWidth => s.line_width,
            FlowParam::Opacity => s.opacity,
            FlowParam::ParticleCount => s.particle_count,
            FlowParam::ParticleSpeed => s.particle_speed,
            FlowParam::TrailFade => s.trail_fade,
        }
    }

    /// Set the slider's value, brought into its range by `clamp`.
    pub fn set<V: Copy, C: Fn(V, i64, i64) -> V>(self, s: &mut FlowSettings<V>, value: V, clamp: C)
        requires
            single_valued3(clamp),
            forall|v: V, lo: i64, hi: i64| clamp.requires((v, lo, hi)),
        ensures
            *final(s) == self.with(
                *old(s),
                answer3(clamp, value, self.bounds().0, self.bounds().1),
            ),
            answered3(clamp, value, self.bounds().0, self.bounds().1),
    {
        let (lo, hi) = self.range();
        let v: V = clamp(value, lo, hi);
        proof {
            lemma_answer3(clamp, value, lo, hi, v);
        }
        match self {
            FlowParam::Seed => {
                s.seed = v;
            },
            FlowParam::Scale => {
                s.scale = v;
            },
            FlowParam::NoiseScale => {
                s.noise_scale = v;
            },
            FlowParam::Octaves => {
                s.octaves = v;
            },
            FlowParam::Roughness => {
                s.roughness = v;
            },
            FlowParam::Warp => {
                s.warp = v;
            },
            FlowParam::Swirl => {
                s.swirl = v;
            },
            FlowParam::Evolve => {
                s.evolve = v;
            },
            FlowParam::Detail => {
                s.detail = v;
            },
            FlowParam::Length => {
                s.length = v;
            },
            FlowParam::LineWidth => {
                s.line_width = v;
            },
            FlowParam::Opacity => {
                s.opacity = v;
            },
            FlowParam::ParticleCount => {
                s.particle_count = v;
            },
            FlowParam::ParticleSpeed => {
                s.particle_speed = v;
            },
            FlowParam::TrailFade => {
                s.trail_fade = v;
            },
        }
    }
}

/// What was set reads back, and nothing else has changed.
pub proof fn law_set_changes_one_value<V>(param: FlowParam, other: FlowParam, s: FlowSettings<V>, v: V)
    ensures
        param.field(param.with(s, v)) == v,
        other != param ==> other.field(param.with(s, v)) == other.field(s),
        param.with(s, v).mode == s.mode,
        param.with(s, v).palette == s.palette,
        param.with(s, v).arrowheads == s.arrowheads,
        param.with(s, v).background == s.background,
        param.with(s, v).animate == s.animate,
{
}

/// Every authored value lies in its slider's range.
pub proof fn law_authored_values_are_in_range(param: FlowParam, s: FlowSettings<i64>)
    requires
        call_ensures(FlowSettings::<i64>::default, (), s),
    ensures
        param.bounds().0 <= param.field(s) <= param.bounds().1,
        param.bounds().0 < param.bounds().1,
{
}

/// How the field is shown.
#[derive(Clone, Copy, Debug, PartialEq, Eq, Structural)]
pub enum FlowMode {
    /// Lines traced through the field.
    Streamlines,
    /// One arrow per grid cell.
    Arrows,
    /// A colour for every direction.
    Gradient,
    /// Particles that ride the field.
    Particles,
}

/// The colours of directions.
#[derive(Clone, Copy, Debug, PartialEq, Eq, Structural)]
pub enum FlowPalette {
    Rainbow,
    Ocean,
    Fire,
    Forest,
    Mono,
}

impl Default for FlowMode {
    fn default() -> (mode: FlowMode)
        ensures
            mode == FlowMode::Particles,
    {
        FlowMode::Particles
    }
}

impl Default for FlowPalette {
    fn default() -> (palette: FlowPalette)
        ensures
            palette == FlowPalette::Rainbow,
    {
        FlowPalette::Rainbow
    }
}

/// How many modes and palettes there are.
pub const MODES: usize = 4;

pub const PALETTES: usize = 5;

impl FlowMode {
    /// The mode's number.
    pub open spec fn place(self) -> int {
        match self {
            FlowMode::Streamlines => 0,
            FlowMode::Arrows => 1,
            FlowMode::Gradient => 2,
            FlowMode::Particles => 3,
        }
    }

    /// All modes, in their order.
    pub fn all() -> (modes: [FlowMode; 4])
        ensures
            modes@ == seq![
                FlowMode::Streamlines,
                FlowMode::Arrows,
                FlowMode::Gradient,
                FlowMode::Particles,
            ],
            forall|i: int| 0 <= i < MODES ==> (#[trigger] modes@[i]).place() == i,
    {
        [FlowMode::Streamlines, FlowMode::Arrows, FlowMode::Gradient, FlowMode::Particles]
    }

    /// The mode's name.
    pub open spec fn name(self) -> Seq<char> {
        match self {
            FlowMode::Streamlines => "Streamlines"@,
            FlowMode::Arrows => "Arrows"@,
            FlowMode::Gradient => "Gradient"@,
            FlowMode::Particles => "Particles"@,
        }
    }
}

impl FlowPalette {
    /// The palette's number.
    pub open spec fn place(self) -> int {
        match self {
            FlowPalette::Rainbow => 0,
            FlowPalette::Ocean => 1,
            FlowPalette::Fire => 2,
            FlowPalette::Forest => 3,
            FlowPalette::Mono => 4,
        }
    }

    /// All palettes, in their order.
    pub fn all() -> (palettes: [FlowPalette; 5])
        ensures
            palettes@ == seq![
                FlowPalette::Rainbow,
                FlowPalette::Ocean,
                FlowPalette::Fire,
                FlowPalette::Forest,
                FlowPalette::Mono,
            ],
            forall|i: int| 0 <= i < PALETTES ==> (#[trigger] palettes@[i]).place() == i,
    {
        [
            FlowPalette::Rainbow,
            FlowPalette::Ocean,
            FlowPalette::Fire,
            FlowPalette::Forest,
            FlowPalette::Mono,
        ]
    }

    /// The palette's name.
    pub open spec fn name(self) -> Seq<char> {
        match self {
            FlowPalette::Rainbow => "Rainbow"@,
            FlowPalette::Ocean => "Ocean"@,
            FlowPalette::Fire => "Fire"@,
            FlowPalette::Forest => "Forest"@,
            FlowPalette::Mono => "Mono"@,
        }
    }
}

/// The controls that step through options.
#[derive(Clone, Copy, Debug, PartialEq, Eq, Structural)]
pub enum FlowCycler {
    Mode,
    Palette,
}

impl FlowCycler {
    /// How many options there are.
    pub open spec fn options(self) -> int {
        match self {
            FlowCycler::Mode => MODES as int,
            FlowCycler::Palette => PALETTES as int,
        }
    }

    /// The number of the chosen option.
    pub open spec fn chosen<V>(self, s: FlowSettings<V>) -> int {
        match self {
            FlowCycler::Mode => s.mode.place(),
            FlowCycler::Palette => s.palette.place(),
        }
    }

    /// The control's name.
    pub fn label(self) -> (name: &'static str)
        ensures
            name@ == (match self {
                FlowCycler::Mode => "View"@,
                FlowCycler::Palette => "Palette"@,
            }),
    {
        match self {
            FlowCycler::Mode => "View",
            FlowCycler::Palette => "Palette",
        }
    }

    /// How many options there are.
    pub fn count(self) -> (n: usize)
        ensures
            n == self.options(),
    {
        match self {
            FlowCycler::Mode => MODES,
            FlowCycler::Palette => PALETTES,
        }
    }

    /// The number of the chosen option.
    pub fn get<V>(self, s: &FlowSettings<V>) -> (index: usize)
        ensures
            index == self.chosen(*s),
            index < self.options(),
    {
        match self {
            FlowCycler::Mode => match s.mode {
                FlowMode::Streamlines => 0,
                FlowMode::Arrows => 1,
                FlowMode::Gradient => 2,
                FlowMode::Particles => 3,
            },
            FlowCycler::Palette => match s.palette {
                FlowPalette::Rainbow => 0,
                FlowPalette::Ocean => 1,
                FlowPalette::Fire => 2,
                FlowPalette::Forest => 3,
                FlowPalette::Mono => 4,
            },
        }
    }

    /// Choose an option by its number, around and around.
    pub fn set<V>(self, s: &mut FlowSettings<V>, index: usize)
        ensures
            self.chosen(*final(s)) == index as int % self.options(),
            self == FlowCycler::Mode ==> *final(s) == (FlowSettings {
                mode: final(s).mode,
                ..*old(s)
            }),
            self == FlowCycler::Palette ==> *final(s) == (FlowSettings {
                palette: final(s).palette,
                ..*old(s)
            }),
    {
        match self {
            FlowCycler::Mode => {
                let modes: [FlowMode; 4] = FlowMode::all();
                s.mode = modes[index % MODES];
            },
            FlowCycler::Palette => {
                let palettes: [FlowPalette; 5] = FlowPalette::all();
                s.palette = palettes[index % PALETTES];
            },
        }
    }

    /// The name of an option by its number, around and around.
    pub fn option_label(self, index: usize) -> (name: &'static str)
        ensures
            self == FlowCycler::Mode ==> exists|m: FlowMode|
                m.place() == index as int % MODES as int && name@ == #[trigger] m.name(),
            self == FlowCycler::Palette ==> exists|p: FlowPalette|
                p.place() == index as int % PALETTES as int && name@ == #[trigger] p.name(),
    {
        match self {
            FlowCycler::Mode => {
                let modes: [FlowMode; 4] = FlowMode::all();
                let mode: FlowMode = modes[index % MODES];
                let name: &'static str = match mode {
                    FlowMode::Streamlines => "Streamlines",
                    FlowMode::Arrows => "Arrows",
                    FlowMode::Gradient => "Gradient",
                    FlowMode::Particles => "Particles",
                };
                assert(name@ == mode.name());
                name
            },
            FlowCycler::Palette => {
                let palettes: [FlowPalette; 5] = FlowPalette::all();
                let palette: FlowPalette = palettes[index % PALETTES];
                let name: &'static str = match palette {
                    FlowPalette::Rainbow => "Rainbow",
                    FlowPalette::Ocean => "Ocean",
                    FlowPalette::Fire => "Fire",
                    FlowPalette::Forest => "Forest",
                    FlowPalette::Mono => "Mono",
                };
                assert(name@ == palette.name());
                name
            },
        }
    }
}

/// Options are told apart by their numbers: an option that was chosen by its
/// number is the one with that number.
pub proof fn law_options_have_one_number(a: FlowMode, b: FlowMode, p: FlowPalette, q: FlowPalette)
    ensures
        a.place() == b.place() ==> a == b,
        p.place() == q.place() ==> p == q,
        0 <= a.place() < MODES,
        0 <= p.place() < PALETTES,
{
}

/// When a control is shown.
#[derive(Clone, Copy, Debug, PartialEq, Eq, Structural)]
pub enum FlowRow {
    Always,
    /// Streamlines only.
    Stream,
    /// Streamlines and arrows.
    Stroke,
    /// Arrows only.
    Arrow,
    /// Everywhere but in the gradient, which is the background.
    Background,
    /// Everywhere but in the particles' own view.
    Overlay,
    /// Wherever there are particles.
    Particle,
}

impl FlowRow {
    /// Whether the row is shown.
    pub open spec fn shown<V>(self, s: FlowSettings<V>) -> bool {
        match self {
            FlowRow::Always => true,
            FlowRow::Stream => s.mode == FlowMode::Streamlines,
            FlowRow::Stroke => s.mode == FlowMode::Streamlines || s.mode == FlowMode::Arrows,
            FlowRow::Arrow => s.mode == FlowMode::Arrows,
            FlowRow::Background => s.mode != FlowMode::Gradient,
            FlowRow::Overlay => s.mode != FlowMode::Particles,
            FlowRow::Particle => s.animate || s.mode == FlowMode::Particles,
        }
    }

    /// Whether the row is shown.
    pub fn visible<V>(self, s: &FlowSettings<V>) -> (shown: bool)
        ensures
            shown == self.shown(*s),
    {
        match self {
            FlowRow::Always => true,
            FlowRow::Stream => s.mode == FlowMode::Streamlines,
            FlowRow::Stroke => s.mode == FlowMode::Streamlines || s.mode == FlowMode::Arrows,
            FlowRow::Arrow => s.mode == FlowMode::Arrows,
            FlowRow::Background => s.mode != FlowMode::Gradient,
            FlowRow::Overlay => s.mode != FlowMode::Particles,
            FlowRow::Particle => s.animate || s.mode == FlowMode::Particles,
        }
    }
}

/// The checkboxes of the flow field.
#[derive(Clone, Copy, Debug, PartialEq, Eq, Structural)]
pub enum FlowToggle {
    Arrowheads,
    Background,
    Animate,
}

impl FlowToggle {
    /// Whether the checkbox is on.
    pub open spec fn on<V>(self, s: FlowSettings<V>) -> bool {
        match self {
            FlowToggle::Arrowheads => s.arrowheads,
            FlowToggle::Background => s.background,
            FlowToggle::Animate => s.animate,
        }
    }

    /// The settings with the checkbox flipped.
    pub open spec fn flipped<V>(self, s: FlowSettings<V>) -> FlowSettings<V> {
        match self {
            FlowToggle::Arrowheads => FlowSettings { arrowheads: !s.arrowheads, ..s },
            FlowToggle::Background => FlowSettings { background: !s.background, ..s },
            FlowToggle::Animate => FlowSettings { animate: !s.animate, ..s },
        }
    }

    /// Whether the checkbox is on.
    pub fn get<V>(self, s: &FlowSettings<V>) -> (on: bool)
        ensures
            on == self.on(*s),
    {
        match self {
            FlowToggle::Arrowheads => s.arrowheads,
            FlowToggle::Background => s.background,
            FlowToggle::Animate => s.animate,
        }
    }

    /// Flip the checkbox.
    pub fn flip<V>(self, s: &mut FlowSettings<V>)
        ensures
            *final(s) == self.flipped(*old(s)),
    {
        match self {
            FlowToggle::Arrowheads => {
                s.arrowheads = !s.arrowheads;
            },
            FlowToggle::Background => {
                s.background = !s.background;
            },
            FlowToggle::Animate => {
                s.animate = !s.animate;
            },
        }
    }

    /// The checkbox's name.
    pub fn label(self) -> (name: &'static str)
        ensures
            name@ == (match self {
                FlowToggle::Arrowheads => "Arrowheads"@,
                FlowToggle::Background => "Gradient bg"@,
                FlowToggle::Animate => "Particle overlay"@,
            }),
    {
        match self {
            FlowToggle::Arrowheads => "Arrowheads",
            FlowToggle::Background => "Gradient bg",
            FlowToggle::Animate => "Particle overlay",
        }
    }

    /// What the checkbox does, for its hover help.
    pub fn tip(self) -> (text: &'static str)
        ensures
            text@ == (match self {
                FlowToggle::Arrowheads => "Draw a head on each arrow."@,
                FlowToggle::Background => "A dimmed colour gradient behind the current view."@,
                FlowToggle::Animate => "Ride animated particles on top of this view."@,
            }),
    {
        match self {
            FlowToggle::Arrowheads => "Draw a head on each arrow.",
            FlowToggle::Background => "A dimmed colour gradient behind the current view.",
            FlowToggle::Animate => "Ride animated particles on top of this view.",
        }
    }
}

/// Flipping a checkbox flips it and no other, and twice is not at all.
pub proof fn law_flips_undo_themselves<V>(t: FlowToggle, other: FlowToggle, s: FlowSettings<V>)
    ensures
        t.on(t.flipped(s)) == !t.on(s),
        other != t ==> other.on(t.flipped(s)) == other.on(s),
        t.flipped(t.flipped(s)) == s,
{
}

/// A control of the panel and the popup.
#[derive(Clone, Copy, Debug, PartialEq, Eq, Structural)]
pub enum FlowControl {
    Slider(FlowParam),
    Cycler(FlowCycler),
    Toggle(FlowToggle),
    /// The button for a new field.
    NewField,
}

/// The controls of the panel and the popup, in their order, with the rows that
/// they are in.
pub fn controls() -> (cells: Vec<(FlowRow, FlowControl)>)
    ensures
        cells@ == seq![
            (FlowRow::Always, FlowControl::Slider(FlowParam::Seed)),
            (FlowRow::Always, FlowControl::Slider(FlowParam::Scale)),
            (FlowRow::Always, FlowControl::Slider(FlowParam::NoiseScale)),
            (FlowRow::Always, FlowControl::Slider(FlowParam::Octaves)),
            (FlowRow::Always, FlowControl::Slider(FlowParam::Roughness)),
            (FlowRow::Always, FlowControl::Slider(FlowParam::Warp)),
            (FlowRow::Always, FlowControl::Slider(FlowParam::Swirl)),
            (FlowRow::Always, FlowControl::Slider(FlowParam::Evolve)),
            (FlowRow::Always, FlowControl::Cycler(FlowCycler::Mode)),
            (FlowRow::Always, FlowControl::Cycler(FlowCycler::Palette)),
            (FlowRow::Stream, FlowControl::Slider(FlowParam::Detail)),
            (FlowRow::Stream, FlowControl::Slider(FlowParam::Length)),
            (FlowRow::Stroke, FlowControl::Slider(FlowParam::LineWidth)),
            (FlowRow::Stroke, FlowControl::Slider(FlowParam::Opacity)),
            (FlowRow::Arrow, FlowControl::Toggle(FlowToggle::Arrowheads)),
            (FlowRow::Background, FlowControl::Toggle(FlowToggle::Background)),
            (FlowRow::Overlay, FlowControl::Toggle(FlowToggle::Animate)),
            (FlowRow::Particle, FlowControl::Slider(FlowParam::ParticleCount)),
            (FlowRow::Particle, FlowControl::Slider(FlowParam::ParticleSpeed)),
            (FlowRow::Particle, FlowControl::Slider(FlowParam::TrailFade)),
            (FlowRow::Always, FlowControl::NewField),
        ],
{
    let mut cells: Vec<(FlowRow, FlowControl)> = Vec::new();
    cells.push((FlowRow::Always, FlowControl::Slider(FlowParam::Seed)));
    cells.push((FlowRow::Always, FlowControl::Slider(FlowParam::Scale)));
    cells.push((FlowRow::Always, FlowControl::Slider(FlowParam::NoiseScale)));
    cells.push((FlowRow::Always, FlowControl::Slider(FlowParam::Octaves)));
    cells.push((FlowRow::Always, FlowControl::Slider(FlowParam::Roughness)));
    cells.push((FlowRow::Always, FlowControl::Slider(FlowParam::Warp)));
    cells.push((FlowRow::Always, FlowControl::Slider(FlowParam::Swirl)));
    cells.push((FlowRow::Always, FlowControl::Slider(FlowParam::Evolve)));
    cells.push((FlowRow::Always, FlowControl::Cycler(FlowCycler::Mode)));
    cells.push((FlowRow::Always, FlowControl::Cycler(FlowCycler::Palette)));
    cells.push((FlowRow::Stream, FlowControl::Slider(FlowParam::Detail)));
    cells.push((FlowRow::Stream, FlowControl::Slider(FlowParam::Length)));
    cells.push((FlowRow::Stroke, FlowControl::Slider(FlowParam::LineWidth)));
    cells.push((FlowRow::Stroke, FlowControl::Slider(FlowParam::Opacity)));
    cells.push((FlowRow::Arrow, FlowControl::Toggle(FlowToggle::Arrowheads)));
    cells.push((FlowRow::Background, FlowControl::Toggle(FlowToggle::Background)));
    cells.push((FlowRow::Overlay, FlowControl::Toggle(FlowToggle::Animate)));
    cells.push((FlowRow::Particle, FlowControl::Slider(FlowParam::ParticleCount)));
    cells.push((FlowRow::Particle, FlowControl::Slider(FlowParam::ParticleSpeed)));
    cells.push((FlowRow::Particle, FlowControl::Slider(FlowParam::TrailFade)));
    cells.push((FlowRow::Always, FlowControl::NewField));
    cells
}

/// What a perf run's arguments ask of the flow field.
#[derive(Clone, Copy)]
pub struct FlowCli<V> {
    pub count: Option<V>,
    pub streamlines: bool,
    pub arrows: bool,
    pub gradient: bool,
    pub evolve: bool,
    pub short_trails: bool,
    pub worst: bool,
    pub detail: Option<V>,
    pub length: Option<V>,
    pub seed: Option<V>,
}

impl<V: Copy> FlowSettings<V> {
    /// The settings of a perf run: its view and flags, and on top its values,
    /// none of which a slider's range clamps. `worst` is the finest grid with
    /// the deepest noise and the longest lines. `milli` makes a value of
    /// thousandths.
    pub open spec fn with_cli<M: Fn(i64) -> V>(self, cli: FlowCli<V>, milli: M) -> FlowSettings<V> {
        let one = answer1(milli, 1000);
        let mode = if cli.streamlines {
            FlowMode::Streamlines
        } else if cli.arrows {
            FlowMode::Arrows
        } else if cli.gradient {
            FlowMode::Gradient
        } else {
            self.mode
        };
        let field = if cli.worst {
            FlowSettings {
                scale: answer1(milli, 4000),
                octaves: answer1(milli, 6000),
                warp: answer1(milli, 5000),
                detail: answer1(milli, FlowParam::Detail.bounds().1),
                length: answer1(milli, FlowParam::Length.bounds().1),
                ..self
            }
        } else {
            self
        };
        FlowSettings {
            particle_count: given(cli.count, self.particle_count),
            mode,
            evolve: if cli.evolve || cli.worst {
                one
            } else {
                self.evolve
            },
            trail_fade: if cli.short_trails {
                answer1(milli, 400)
            } else {
                self.trail_fade
            },
            detail: given(cli.detail, field.detail),
            length: given(cli.length, field.length),
            seed: given(cli.seed, self.seed),
            ..field
        }
    }

    /// Take over a perf run's arguments.
    pub fn apply_cli<M: Fn(i64) -> V>(&mut self, cli: FlowCli<V>, milli: M)
        requires
            single_valued1(milli),
            forall|m: i64| milli.requires((m,)),
        ensures
            *final(self) == old(self).with_cli(cli, milli),
            answered1(milli, 1000),
            answered1(milli, 400),
            answered1(milli, 4000),
            answered1(milli, 6000),
            answered1(milli, 5000),
            answered1(milli, FlowParam::Detail.bounds().1),
            answered1(milli, FlowParam::Length.bounds().1),
    {
        let most_detail: i64 = FlowParam::Detail.range().1;
        let most_length: i64 = FlowParam::Length.range().1;
        let one: V = milli(1000);
        let short: V = milli(400);
        let fine: V = milli(4000);
        let deep: V = milli(6000);
        let warped: V = milli(5000);
        let detail: V = milli(most_detail);
        let length: V = milli(most_length);
        proof {
            lemma_answer1(milli, 1000, one);
            lemma_answer1(milli, 400, short);
            lemma_answer1(milli, 4000, fine);
            lemma_answer1(milli, 6000, deep);
            lemma_answer1(milli, 5000, warped);
            lemma_answer1(milli, most_detail, detail);
            lemma_answer1(milli, most_length, length);
        }
        self.particle_count = given_or(cli.count, self.particle_count);
        if cli.streamlines {
            self.mode = FlowMode::Streamlines;
        } else if cli.arrows {
            self.mode = FlowMode::Arrows;
        } else if cli.gradient {
            self.mode = FlowMode::Gradient;
        }
        if cli.evolve {
            self.evolve = one;
        }
        if cli.short_trails {
            self.trail_fade = short;
        }
        if cli.worst {
            self.scale = fine;
            self.octaves = deep;
            self.warp = warped;
            self.evolve = one;
            self.detail = detail;
            self.length = length;
        }
        self.detail = given_or(cli.detail, self.detail);
        self.length = given_or(cli.length, self.length);
        self.seed = given_or(cli.seed, self.seed);
    }
}

/// Every slider reads and moves the value that it is named after.
pub proof fn law_sliders_name_their_values<V>(s: FlowSettings<V>, v: V)
    ensures
        FlowParam::Seed.field(s) == s.seed,
        FlowParam::Seed.with(s, v).seed == v,
        FlowParam::Scale.field(s) == s.scale,
        FlowParam::Scale.with(s, v).scale == v,
        FlowParam::NoiseScale.field(s) == s.noise_scale,
        FlowParam::NoiseScale.with(s, v).noise_scale == v,
        FlowParam::Octaves.field(s) == s.octaves,
        FlowParam::Octaves.with(s, v).octaves == v,
        FlowParam::Roughness.field(s) == s.roughness,
        FlowParam::Roughness.with(s, v).roughness == v,
        FlowParam::Warp.field(s) == s.warp,
        FlowParam::Warp.with(s, v).warp == v,
        FlowParam::Swirl.field(s) == s.swirl,
        FlowParam::Swirl.with(s, v).swirl == v,
        FlowParam::Evolve.field(s) == s.evolve,
        FlowParam::Evolve.with(s, v).evolve == v,
        FlowParam::Detail.field(s) == s.detail,
        FlowParam::Detail.with(s, v).detail == v,
        FlowParam::Length.field(s) == s.length,
        FlowParam::Length.with(s, v).length == v,
        FlowParam::LineWidth.field(s) == s.line_width,
        FlowParam::LineWidth.with(s, v).line_width == v,
        FlowParam::Opacity.field(s) == s.opacity,
        FlowParam::Opacity.with(s, v).opacity == v,
        FlowParam::ParticleCount.field(s) == s.particle_count,
        FlowParam::ParticleCount.with(s, v).particle_count == v,
        FlowParam::ParticleSpeed.field(s) == s.particle_speed,
        FlowParam::ParticleSpeed.with(s, v).particle_speed == v,
        FlowParam::TrailFade.field(s) == s.trail_fade,
        FlowParam::TrailFade.with(s, v).trail_fade == v,
{
}

/// Settings are mapped value by value, and what is no number stays.
pub proof fn law_mapping_goes_value_by_value<V: Copy, W, F: Fn(V) -> W>(
    param: FlowParam,
    s: FlowSettings<V>,
    f: F,
)
    ensures
        param.field(s.mapped(f)) == answer1(f, param.field(s)),
        s.mapped(f).mode == s.mode,
        s.mapped(f).palette == s.palette,
        s.mapped(f).arrowheads == s.arrowheads,
        s.mapped(f).background == s.background,
        s.mapped(f).animate == s.animate,
{
}

/// Every switch reads and flips the setting that it is named after.
pub proof fn law_switches_name_their_settings<V>(s: FlowSettings<V>)
    ensures
        FlowToggle::Arrowheads.on(s) == s.arrowheads,
        FlowToggle::Background.on(s) == s.background,
        FlowToggle::Animate.on(s) == s.animate,
        FlowToggle::Arrowheads.flipped(s).arrowheads == !s.arrowheads,
        FlowToggle::Background.flipped(s).background == !s.background,
        FlowToggle::Animate.flipped(s).animate == !s.animate,
{
}

/// The command line moves what it names and nothing else: without a word it moves
/// nothing; a value given outright stands, whatever the other words ask for; the
/// first view named stands; and the hardest case is the finest field, with the most
/// and the longest lines, in motion.
pub proof fn law_command_line_moves_what_it_names<V: Copy, M: Fn(i64) -> V>(
    s: FlowSettings<V>,
    cli: FlowCli<V>,
    milli: M,
)
    ensures
        ({
            let t = s.with_cli(cli, milli);
            &&& cli.count is None && !cli.streamlines && !cli.arrows && !cli.gradient && !cli.evolve
                && !cli.short_trails && !cli.worst && cli.detail is None && cli.length is None
                && cli.seed is None ==> t == s
            &&& cli.count matches Some(v) ==> t.particle_count == v
            &&& cli.detail matches Some(v) ==> t.detail == v
            &&& cli.length matches Some(v) ==> t.length == v
            &&& cli.seed matches Some(v) ==> t.seed == v
            &&& cli.count is None ==> t.particle_count == s.particle_count
            &&& cli.seed is None ==> t.seed == s.seed
            &&& cli.streamlines ==> t.mode == FlowMode::Streamlines
            &&& !cli.streamlines && cli.arrows ==> t.mode == FlowMode::Arrows
            &&& !cli.streamlines && !cli.arrows && cli.gradient ==> t.mode == FlowMode::Gradient
            &&& !cli.streamlines && !cli.arrows && !cli.gradient ==> t.mode == s.mode
            &&& cli.evolve || cli.worst ==> t.evolve == answer1(milli, 1000)
            &&& !cli.evolve && !cli.worst ==> t.evolve == s.evolve
            &&& cli.short_trails ==> t.trail_fade == answer1(milli, 400)
            &&& !cli.short_trails ==> t.trail_fade == s.trail_fade
            &&& cli.worst ==> t.scale == answer1(milli, 4000) && t.octaves == answer1(milli, 6000)
                && t.warp == answer1(milli, 5000)
            &&& cli.worst && cli.detail is None ==> t.detail == answer1(milli, 2_500_000)
            &&& cli.worst && cli.length is None ==> t.length == answer1(milli, 300_000)
            &&& !cli.worst ==> t.scale == s.scale && t.octaves == s.octaves && t.warp == s.warp
            &&& !cli.worst && cli.detail is None ==> t.detail == s.detail
            &&& !cli.worst && cli.length is None ==> t.length == s.length
            &&& t.noise_scale == s.noise_scale && t.roughness == s.roughness && t.swirl == s.swirl
            &&& t.line_width == s.line_width && t.opacity == s.opacity && t.particle_speed
                == s.particle_speed
            &&& t.palette == s.palette && t.arrowheads == s.arrowheads && t.background
                == s.background && t.animate == s.animate
        }),
{
}

/// Every choice reads the setting that it is named after, and has as many options as
/// there are values: each has its own number, in the order in which they are offered.
pub proof fn law_choices_name_their_settings<V>(s: FlowSettings<V>)
    ensures
        FlowCycler::Mode.options() == 4,
        FlowCycler::Palette.options() == 5,
        FlowCycler::Mode.chosen(s) == s.mode.place(),
        FlowCycler::Palette.chosen(s) == s.palette.place(),
        FlowMode::Streamlines.place() < FlowMode::Arrows.place() < FlowMode::Gradient.place()
            < FlowMode::Particles.place(),
        FlowPalette::Rainbow.place() < FlowPalette::Ocean.place() < FlowPalette::Fire.place()
            < FlowPalette::Forest.place() < FlowPalette::Mono.place(),
{
}

} // verus!
