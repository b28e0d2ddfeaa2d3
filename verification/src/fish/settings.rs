//! The pond's tunables.

use vstd::prelude::*;

use crate::oracle::{
    answer1, answer3, answered3, lemma_answer1, lemma_answer3, single_valued1, single_valued3,
};
use crate::cli::given;
use crate::fish::water::WaterStyle;

verus! {

/// The tunables of the fish and their water.
#[derive(Clone, Copy)]
pub struct FishSettings<V> {
    /// How many fish there are.
    pub count: V,
    /// How fast a fish swims, in pixels per second.
    pub speed: V,
    /// The size that a fish starts with.
    pub start_scale: V,
    /// How much a fish grows with every piece of food.
    pub growth_rate: V,
    /// How a fish of a school keeps away from others.
    pub separation: V,
    /// How a fish of a school heads like others.
    pub alignment: V,
    /// How a fish of a school keeps to the others.
    pub cohesion: V,
    /// How often a fish weaves.
    pub wave_freq: V,
    /// How far a fish weaves, in pixels.
    pub wave_amp: V,
    /// How bright the light on the bed is.
    pub caustics: V,
    /// How much the surface sparkles.
    pub sparkle: V,
    /// How hard the fish churn the water.
    pub ripple_strength: V,
    /// How many bubbles there are.
    pub bubble_count: V,
    /// Whether the fish weave.
    pub wave: bool,
    /// Whether there is water.
    pub water: bool,
    /// The look of the water.
    pub style: WaterStyle,
    /// Whether the fish disturb the water.
    pub ripples: bool,
    /// Whether there are bubbles.
    pub bubbles: bool,
}

impl Default for FishSettings<i64> {
    /// The authored values, in thousandths.
    fn default() -> (s: FishSettings<i64>)
        ensures
            s == (FishSettings {
                count: 5000i64,
                speed: 320_000i64,
                start_scale: 50i64,
                growth_rate: 10i64,
                separation: 2800i64,
                alignment: 1000i64,
                cohesion: 1000i64,
                wave_freq: 4500i64,
                wave_amp: 15_000i64,
                caustics: 550i64,
                sparkle: 350i64,
                ripple_strength: 500i64,
                bubble_count: 128_000i64,
                wave: true,
                water: true,
                style: WaterStyle::Natural,
                ripples: true,
                bubbles: true,
            }),
    {
        FishSettings {
            count: 5000,
            speed: 320_000,
            start_scale: 50,
            growth_rate: 10,
            separation: 2800,
            alignment: 1000,
            cohesion: 1000,
            wave_freq: 4500,
            wave_amp: 15_000,
            caustics: 550,
            sparkle: 350,
            ripple_strength: 500,
            bubble_count: 128_000,
            wave: true,
            water: true,
            style: WaterStyle::Natural,
            ripples: true,
            bubbles: true,
        }
    }
}

impl<V: Copy> FishSettings<V> {
    /// The settings with every value put through `f`.
    pub open spec fn mapped<W, F: Fn(V) -> W>(self, f: F) -> FishSettings<W> {
        FishSettings {
            count: answer1(f, self.count),
            speed: answer1(f, self.speed),
            start_scale: answer1(f, self.start_scale),
            growth_rate: answer1(f, self.growth_rate),
            separation: answer1(f, self.separation),
            alignment: answer1(f, self.alignment),
            cohesion: answer1(f, self.cohesion),
            wave_freq: answer1(f, self.wave_freq),
            wave_amp: answer1(f, self.wave_amp),
            caustics: answer1(f, self.caustics),
            sparkle: answer1(f, self.sparkle),
            ripple_strength: answer1(f, self.ripple_strength),
            bubble_count: answer1(f, self.bubble_count),
            wave: self.wave,
            water: self.water,
            style: self.style,
            ripples: self.ripples,
            bubbles: self.bubbles,
        }
    }

    /// The settings with every value put through `f`.
    pub fn map<W, F: Fn(V) -> W>(&self, f: F) -> (s: FishSettings<W>)
        requires
            single_valued1(f),
            forall|v: V| f.requires((v,)),
        ensures
            s == self.mapped(f),
            f.ensures((self.count,), s.count),
            f.ensures((self.speed,), s.speed),
            f.ensures((self.start_scale,), s.start_scale),
            f.ensures((self.growth_rate,), s.growth_rate),
            f.ensures((self.separation,), s.separation),
            f.ensures((self.alignment,), s.alignment),
            f.ensures((self.cohesion,), s.cohesion),
            f.ensures((self.wave_freq,), s.wave_freq),
            f.ensures((self.wave_amp,), s.wave_amp),
            f.ensures((self.caustics,), s.caustics),
            f.ensures((self.sparkle,), s.sparkle),
            f.ensures((self.ripple_strength,), s.ripple_strength),
            f.ensures((self.bubble_count,), s.bubble_count),
    {
        let count: W = f(self.count);
        let speed: W = f(self.speed);
        let start_scale: W = f(self.start_scale);
        let growth_rate: W = f(self.growth_rate);
        let separation: W = f(self.separation);
        let alignment: W = f(self.alignment);
        let cohesion: W = f(self.cohesion);
        let wave_freq: W = f(self.wave_freq);
        let wave_amp: W = f(self.wave_amp);
        let caustics: W = f(self.caustics);
        let sparkle: W = f(self.sparkle);
        let ripple_strength: W = f(self.ripple_strength);
        let bubble_count: W = f(self.bubble_count);
        proof {
            lemma_answer1(f, self.count, count);
            lemma_answer1(f, self.speed, speed);
            lemma_answer1(f, self.start_scale, start_scale);
            lemma_answer1(f, self.growth_rate, growth_rate);
            lemma_answer1(f, self.separation, separation);
            lemma_answer1(f, self.alignment, alignment);
            lemma_answer1(f, self.cohesion, cohesion);
            lemma_answer1(f, self.wave_freq, wave_freq);
            lemma_answer1(f, self.wave_amp, wave_amp);
            lemma_answer1(f, self.caustics, caustics);
            lemma_answer1(f, self.sparkle, sparkle);
            lemma_answer1(f, self.ripple_strength, ripple_strength);
            lemma_answer1(f, self.bubble_count, bubble_count);
        }
        FishSettings {
            count,
            speed,
            start_scale,
            growth_rate,
            separation,
            alignment,
            cohesion,
            wave_freq,
            wave_amp,
            caustics,
            sparkle,
            ripple_strength,
            bubble_count,
            wave: self.wave,
            water: self.water,
            style: self.style,
            ripples: self.ripples,
            bubbles: self.bubbles,
        }
    }
}

/// The sliders of the fish and their water.
#[derive(Clone, Copy, Debug, PartialEq, Eq, Structural)]
pub enum FishParam {
    Count,
    Speed,
    StartScale,
    GrowthRate,
    Separation,
    Alignment,
    Cohesion,
    WaveFreq,
    WaveAmp,
    Caustics,
    Sparkle,
    RippleStrength,
    BubbleCount,
}

impl FishParam {
    /// The sliders that are always shown.
    pub fn main() -> (group: [FishParam; 4])
        ensures
            group@ == seq![
                FishParam::Count,
                FishParam::Speed,
                FishParam::StartScale,
                FishParam::GrowthRate,
            ],
    {
        [
            FishParam::Count,
            FishParam::Speed,
            FishParam::StartScale,
            FishParam::GrowthRate,
        ]
    }

    /// The sliders that are shown while there is more than one fish.
    pub fn school() -> (group: [FishParam; 3])
        ensures
            group@ == seq![
                FishParam::Separation,
                FishParam::Alignment,
                FishParam::Cohesion,
            ],
    {
        [
            FishParam::Separation,
            FishParam::Alignment,
            FishParam::Cohesion,
        ]
    }

    /// The sliders that are shown while the fish weave.
    pub fn weave() -> (group: [FishParam; 2])
        ensures
            group@ == seq![
                FishParam::WaveFreq,
                FishParam::WaveAmp,
            ],
    {
        [
            FishParam::WaveFreq,
            FishParam::WaveAmp,
        ]
    }

    /// The sliders that are shown while there is water.
    pub fn water() -> (group: [FishParam; 2])
        ensures
            group@ == seq![
                FishParam::Caustics,
                FishParam::Sparkle,
            ],
    {
        [
            FishParam::Caustics,
            FishParam::Sparkle,
        ]
    }

    /// The slider that is shown while the water ripples.
    pub fn ripple() -> (group: [FishParam; 1])
        ensures
            group@ == seq![
                FishParam::RippleStrength,
            ],
    {
        [
            FishParam::RippleStrength,
        ]
    }

    /// The slider that is shown while the water bubbles.
    pub fn bubble() -> (group: [FishParam; 1])
        ensures
            group@ == seq![
                FishParam::BubbleCount,
            ],
    {
        [
            FishParam::BubbleCount,
        ]
    }

    /// The slider's name.
    pub fn label(self) -> (name: &'static str)
        ensures
            name@ == (match self {
                FishParam::Count => "Fish"@,
                FishParam::Speed => "Speed"@,
                FishParam::StartScale => "Start size"@,
                FishParam::GrowthRate => "Growth rate"@,
                FishParam::Separation => "Separation"@,
                FishParam::Alignment => "Alignment"@,
                FishParam::Cohesion => "Cohesion"@,
                FishParam::WaveFreq => "Wave freq"@,
                FishParam::WaveAmp => "Wave amp"@,
                FishParam::Caustics => "Caustics"@,
                FishParam::Sparkle => "Sparkle"@,
                FishParam::RippleStrength => "Ripple strength"@,
                FishParam::BubbleCount => "Bubble count"@,
            }),
    {
        match self {
            FishParam::Count => "Fish",
            FishParam::Speed => "Speed",
            FishParam::StartScale => "Start size",
            FishParam::GrowthRate => "Growth rate",
            FishParam::Separation => "Separation",
            FishParam::Alignment => "Alignment",
            FishParam::Cohesion => "Cohesion",
            FishParam::WaveFreq => "Wave freq",
            FishParam::WaveAmp => "Wave amp",
            FishParam::Caustics => "Caustics",
            FishParam::Sparkle => "Sparkle",
            FishParam::RippleStrength => "Ripple strength",
            FishParam::BubbleCount => "Bubble count",
        }
    }

    /// The least and the greatest value, in thousandths.
    pub open spec fn bounds(self) -> (i64, i64) {
        match self {
            FishParam::Count => (1000i64, 8_192_000i64),
            FishParam::Speed => (50_000i64, 900_000i64),
            FishParam::StartScale => (50i64, 500i64),
            FishParam::GrowthRate => (0i64, 100i64),
            FishParam::Separation => (0i64, 8000i64),
            FishParam::Alignment => (0i64, 6000i64),
            FishParam::Cohesion => (0i64, 6000i64),
            FishParam::WaveFreq => (1000i64, 20_000i64),
            FishParam::WaveAmp => (5000i64, 120_000i64),
            FishParam::Caustics => (0i64, 1000i64),
            FishParam::Sparkle => (0i64, 1000i64),
            FishParam::RippleStrength => (0i64, 3000i64),
            FishParam::BubbleCount => (1000i64, 512_000i64),
        }
    }

    /// The least and the greatest value, in thousandths.
    pub fn range(self) -> (range: (i64, i64))
        ensures
            range == self.bounds(),
    {
        match self {
            FishParam::Count => (1000, 8_192_000),
            FishParam::Speed => (50_000, 900_000),
            FishParam::StartScale => (50, 500),
            FishParam::GrowthRate => (0, 100),
            FishParam::Separation => (0, 8000),
            FishParam::Alignment => (0, 6000),
            FishParam::Cohesion => (0, 6000),
            FishParam::WaveFreq => (1000, 20_000),
            FishParam::WaveAmp => (5000, 120_000),
            FishParam::Caustics => (0, 1000),
            FishParam::Sparkle => (0, 1000),
            FishParam::RippleStrength => (0, 3000),
            FishParam::BubbleCount => (1000, 512_000),
        }
    }

    /// The decimals that a value is shown with.
    pub fn decimals(self) -> (n: u32)
        ensures
            n == (match self {
                FishParam::Count => 0u32,
                FishParam::Speed => 0u32,
                FishParam::StartScale => 2u32,
                FishParam::GrowthRate => 3u32,
                FishParam::Separation => 2u32,
                FishParam::Alignment => 2u32,
                FishParam::Cohesion => 2u32,
                FishParam::WaveFreq => 1u32,
                FishParam::WaveAmp => 0u32,
                FishParam::Caustics => 2u32,
                FishParam::Sparkle => 2u32,
                FishParam::RippleStrength => 2u32,
                FishParam::BubbleCount => 0u32,
            }),
    {
        match self {
            FishParam::Count => 0,
            FishParam::Speed => 0,
            FishParam::StartScale => 2,
            FishParam::GrowthRate => 3,
            FishParam::Separation => 2,
            FishParam::Alignment => 2,
            FishParam::Cohesion => 2,
            FishParam::WaveFreq => 1,
            FishParam::WaveAmp => 0,
            FishParam::Caustics => 2,
            FishParam::Sparkle => 2,
            FishParam::RippleStrength => 2,
            FishParam::BubbleCount => 0,
        }
    }

    /// Whether the slider doubles its value over equal ways, so that the low
    /// end of a wide range stays usable.
    pub fn is_log(self) -> (log: bool)
        ensures
            log == (self == FishParam::Count),
    {
        self == FishParam::Count
    }

    /// The value that the slider shows.
    pub open spec fn field<V>(self, s: FishSettings<V>) -> V {
        match self {
            FishParam::Count => s.count,
            FishParam::Speed => s.speed,
            FishParam::StartScale => s.start_scale,
            FishParam::GrowthRate => s.growth_rate,
            FishParam::Separation => s.separation,
            FishParam::Alignment => s.alignment,
            FishParam::Cohesion => s.cohesion,
            FishParam::WaveFreq => s.wave_freq,
            FishParam::WaveAmp => s.wave_amp,
            FishParam::Caustics => s.caustics,
            FishParam::Sparkle => s.sparkle,
            FishParam::RippleStrength => s.ripple_strength,
            FishParam::BubbleCount => s.bubble_count,
        }
    }

    /// The settings with the slider's value replaced.
    pub open spec fn with<V>(self, s: FishSettings<V>, v: V) -> FishSettings<V> {
        match self {
            FishParam::Count => FishSettings { count: v, ..s },
            FishParam::Speed => FishSettings { speed: v, ..s },
            FishParam::StartScale => FishSettings { start_scale: v, ..s },
            FishParam::GrowthRate => FishSettings { growth_rate: v, ..s },
            FishParam::Separation => FishSettings { separation: v, ..s },
            FishParam::Alignment => FishSettings { alignment: v, ..s },
            FishParam::Cohesion => FishSettings { cohesion: v, ..s },
            FishParam::WaveFreq => FishSettings { wave_freq: v, ..s },
            FishParam::WaveAmp => FishSettings { wave_amp: v, ..s },
            FishParam::Caustics => FishSettings { caustics: v, ..s },
            FishParam::Sparkle => FishSettings { sparkle: v, ..s },
            FishParam::RippleStrength => FishSettings { ripple_strength: v, ..s },
            FishParam::BubbleCount => FishSettings { bubble_count: v, ..s },
        }
    }

    /// The value that the slider shows.
    pub fn get<V: Copy>(self, s: &FishSettings<V>) -> (v: V)
        ensures
            v == self.field(*s),
    {
        match self {
            FishParam::Count => s.count,
            FishParam::Speed => s.speed,
            FishParam::StartScale => s.start_scale,
            FishParam::GrowthRate => s.growth_rate,
            FishParam::Separation => s.separation,
            FishParam::Alignment => s.alignment,
            FishParam::Cohesion => s.cohesion,
            FishParam::WaveFreq => s.wave_freq,
            FishParam::WaveAmp => s.wave_amp,
            FishParam::Caustics => s.caustics,
            FishParam::Sparkle => s.sparkle,
            FishParam::RippleStrength => s.ripple_strength,
            FishParam::BubbleCount => s.bubble_count,
        }
    }

    /// Set the slider's value, brought into its range by `clamp`.
    pub fn set<V: Copy, C: Fn(V, i64, i64) -> V>(self, s: &mut FishSettings<V>, value: V, clamp: C)
        requires
            single_valued3(clamp),
            forall|v: V, lo: i64, hi: i64| clamp.requires((v, lo, hi)),
        ensures
            *final(s) == self.with(
                *old(s),
                answer3(clamp, value, self.bounds().0, self.bounds().1),
            ),
            answered3(clamp, value, self.bounds().0, self.bounds().1),
    {
        let (lo, hi) = self.range();
        let v: V = clamp(value, lo, hi);
        proof {
            lemma_answer3(clamp, value, lo, hi, v);
        }
        match self {
            FishParam::Count => {
                s.count = v;
            },
            FishParam::Speed => {
                s.speed = v;
            },
            FishParam::StartScale => {
                s.start_scale = v;
            },
            FishParam::GrowthRate => {
                s.growth_rate = v;
            },
            FishParam::Separation => {
                s.separation = v;
            },
            FishParam::Alignment => {
                s.alignment = v;
            },
            FishParam::Cohesion => {
                s.cohesion = v;
            },
            FishParam::WaveFreq => {
                s.wave_freq = v;
            },
            FishParam::WaveAmp => {
                s.wave_amp = v;
            },
            FishParam::Caustics => {
                s.caustics = v;
            },
            FishParam::Sparkle => {
                s.sparkle = v;
            },
            FishParam::RippleStrength => {
                s.ripple_strength = v;
            },
            FishParam::BubbleCount => {
                s.bubble_count = v;
            },
        }
    }
}

/// What was set reads back, and nothing else has changed.
pub proof fn law_set_changes_one_value<V>(param: FishParam, other: FishParam, s: FishSettings<V>, v: V)
    ensures
        param.field(param.with(s, v)) == v,
        other != param ==> other.field(param.with(s, v)) == other.field(s),
        param.with(s, v).wave == s.wave,
        param.with(s, v).water == s.water,
        param.with(s, v).style == s.style,
        param.with(s, v).ripples == s.ripples,
        param.with(s, v).bubbles == s.bubbles,
{
}

/// Every authored value lies in its slider's range.
pub proof fn law_authored_values_are_in_range(param: FishParam, s: FishSettings<i64>)
    requires
        call_ensures(FishSettings::<i64>::default, (), s),
    ensures
        param.bounds().0 <= param.field(s) <= param.bounds().1,
        param.bounds().0 < param.bounds().1,
{
}

/// The checkboxes of the water.
#[derive(Clone, Copy, Debug, PartialEq, Eq, Structural)]
pub enum WaterToggle {
    Water,
    Ripples,
    Bubbles,
}

impl WaterToggle {
    /// Whether the checkbox is on.
    pub open spec fn on<V>(self, s: FishSettings<V>) -> bool {
        match self {
            WaterToggle::Water => s.water,
            WaterToggle::Ripples => s.ripples,
            WaterToggle::Bubbles => s.bubbles,
        }
    }

    /// The settings with the checkbox flipped.
    pub open spec fn flipped<V>(self, s: FishSettings<V>) -> FishSettings<V> {
        match self {
            WaterToggle::Water => FishSettings { water: !s.water, ..s },
            WaterToggle::Ripples => FishSettings { ripples: !s.ripples, ..s },
            WaterToggle::Bubbles => FishSettings { bubbles: !s.bubbles, ..s },
        }
    }

    /// Whether the checkbox is on.
    pub fn get<V>(self, s: &FishSettings<V>) -> (on: bool)
        ensures
            on == self.on(*s),
    {
        match self {
            WaterToggle::Water => s.water,
            WaterToggle::Ripples => s.ripples,
            WaterToggle::Bubbles => s.bubbles,
        }
    }

    /// Flip the checkbox.
    pub fn flip<V>(self, s: &mut FishSettings<V>)
        ensures
            *final(s) == self.flipped(*old(s)),
    {
        match self {
            WaterToggle::Water => {
                s.water = !s.water;
            },
            WaterToggle::Ripples => {
                s.ripples = !s.ripples;
            },
            WaterToggle::Bubbles => {
                s.bubbles = !s.bubbles;
            },
        }
    }

    /// The checkbox's name.
    pub fn label(self) -> (name: &'static str)
        ensures
            name@ == (match self {
                WaterToggle::Water => "Water"@,
                WaterToggle::Ripples => "Ripples"@,
                WaterToggle::Bubbles => "Bubbles"@,
            }),
    {
        match self {
            WaterToggle::Water => "Water",
            WaterToggle::Ripples => "Ripples",
            WaterToggle::Bubbles => "Bubbles",
        }
    }
}

/// When a cell of the popup is shown.
#[derive(Clone, Copy, Debug, PartialEq, Eq, Structural)]
pub enum FishRow {
    Always,
    School,
    Wave,
    Water,
    Ripple,
    Bubble,
}

impl FishRow {
    /// Whether the row is shown, for a pond of `fish` fish.
    pub open spec fn shown<V>(self, s: FishSettings<V>, fish: usize) -> bool {
        match self {
            FishRow::Always => true,
            FishRow::School => fish > 1,
            FishRow::Wave => s.wave,
            FishRow::Water => s.water,
            FishRow::Ripple => s.water && s.ripples,
            FishRow::Bubble => s.water && s.bubbles,
        }
    }

    /// Whether the row is shown, for a pond of `fish` fish.
    pub fn visible<V>(self, s: &FishSettings<V>, fish: usize) -> (shown: bool)
        ensures
            shown == self.shown(*s, fish),
    {
        match self {
            FishRow::Always => true,
            FishRow::School => fish > 1,
            FishRow::Wave => s.wave,
            FishRow::Water => s.water,
            FishRow::Ripple => s.water && s.ripples,
            FishRow::Bubble => s.water && s.bubbles,
        }
    }
}

/// A control of the popup.
#[derive(Clone, Copy, Debug, PartialEq, Eq, Structural)]
pub enum FishControl {
    Slider(FishParam),
    /// The checkbox of the weave.
    Weave,
    Toggle(WaterToggle),
    /// The button that changes the water's look.
    Style,
}

/// The controls of the popup, in their order, with the rows that they are in.
pub fn popup() -> (cells: Vec<(FishRow, FishControl)>)
    ensures
        cells@ == seq![
            (FishRow::Always, FishControl::Slider(FishParam::Count)),
            (FishRow::Always, FishControl::Slider(FishParam::Speed)),
            (FishRow::Always, FishControl::Slider(FishParam::StartScale)),
            (FishRow::Always, FishControl::Slider(FishParam::GrowthRate)),
            (FishRow::School, FishControl::Slider(FishParam::Separation)),
            (FishRow::School, FishControl::Slider(FishParam::Alignment)),
            (FishRow::School, FishControl::Slider(FishParam::Cohesion)),
            (FishRow::Always, FishControl::Weave),
            (FishRow::Wave, FishControl::Slider(FishParam::WaveFreq)),
            (FishRow::Wave, FishControl::Slider(FishParam::WaveAmp)),
            (FishRow::Always, FishControl::Toggle(WaterToggle::Water)),
            (FishRow::Water, FishControl::Style),
            (FishRow::Water, FishControl::Slider(FishParam::Caustics)),
            (FishRow::Water, FishControl::Slider(FishParam::Sparkle)),
            (FishRow::Water, FishControl::Toggle(WaterToggle::Ripples)),
            (FishRow::Ripple, FishControl::Slider(FishParam::RippleStrength)),
            (FishRow::Water, FishControl::Toggle(WaterToggle::Bubbles)),
            (FishRow::Bubble, FishControl::Slider(FishParam::BubbleCount)),
        ],
{
    let mut cells: Vec<(FishRow, FishControl)> = Vec::new();
    cells.push((FishRow::Always, FishControl::Slider(FishParam::Count)));
    cells.push((FishRow::Always, FishControl::Slider(FishParam::Speed)));
    cells.push((FishRow::Always, FishControl::Slider(FishParam::StartScale)));
    cells.push((FishRow::Always, FishControl::Slider(FishParam::GrowthRate)));
    cells.push((FishRow::School, FishControl::Slider(FishParam::Separation)));
    cells.push((FishRow::School, FishControl::Slider(FishParam::Alignment)));
    cells.push((FishRow::School, FishControl::Slider(FishParam::Cohesion)));
    cells.push((FishRow::Always, FishControl::Weave));
    cells.push((FishRow::Wave, FishControl::Slider(FishParam::WaveFreq)));
    cells.push((FishRow::Wave, FishControl::Slider(FishParam::WaveAmp)));
    cells.push((FishRow::Always, FishControl::Toggle(WaterToggle::Water)));
    cells.push((FishRow::Water, FishControl::Style));
    cells.push((FishRow::Water, FishControl::Slider(FishParam::Caustics)));
    cells.push((FishRow::Water, FishControl::Slider(FishParam::Sparkle)));
    cells.push((FishRow::Water, FishControl::Toggle(WaterToggle::Ripples)));
    cells.push((FishRow::Ripple, FishControl::Slider(FishParam::RippleStrength)));
    cells.push((FishRow::Water, FishControl::Toggle(WaterToggle::Bubbles)));
    cells.push((FishRow::Bubble, FishControl::Slider(FishParam::BubbleCount)));
    cells
}

/// Without water, nothing of the water is shown but its own checkbox.
pub proof fn law_water_rows_need_water<V>(row: FishRow, s: FishSettings<V>, fish: usize)
    requires
        !s.water,
        row == FishRow::Water || row == FishRow::Ripple || row == FishRow::Bubble,
    ensures
        !row.shown(s, fish),
{
}

/// What a perf run's arguments ask of the pond.
#[derive(Clone, Copy)]
pub struct FishCli<V> {
    pub count: Option<V>,
    pub no_water: bool,
    pub ripple: Option<V>,
    pub caustics: Option<V>,
    pub sparkle: Option<V>,
    pub bubbles: Option<V>,
}

impl<V: Copy> FishSettings<V> {
    /// Take over a perf run's arguments, which no slider's range clamps.
    pub fn apply_cli(&mut self, cli: FishCli<V>)
        ensures
            *final(self) == (FishSettings {
                count: given(cli.count, old(self).count),
                water: old(self).water && !cli.no_water,
                ripple_strength: given(cli.ripple, old(self).ripple_strength),
                caustics: given(cli.caustics, old(self).caustics),
                sparkle: given(cli.sparkle, old(self).sparkle),
                bubble_count: given(cli.bubbles, old(self).bubble_count),
                ..*old(self)
            }),
    {
        if let Some(v) = cli.count {
            self.count = v;
        }
        if cli.no_water {
            self.water = false;
        }
        if let Some(v) = cli.ripple {
            self.ripple_strength = v;
        }
        if let Some(v) = cli.caustics {
            self.caustics = v;
        }
        if let Some(v) = cli.sparkle {
            self.sparkle = v;
        }
        if let Some(v) = cli.bubbles {
            self.bubble_count = v;
        }
    }
}

/// Every slider reads and moves the value that it is named after.
pub proof fn law_sliders_name_their_values<V>(s: FishSettings<V>, v: V)
    ensures
        FishParam::Count.field(s) == s.count,
        FishParam::Count.with(s, v).count == v,
        FishParam::Speed.field(s) == s.speed,
        FishParam::Speed.with(s, v).speed == v,
        FishParam::StartScale.field(s) == s.start_scale,
        FishParam::StartScale.with(s, v).start_scale == v,
        FishParam::GrowthRate.field(s) == s.growth_rate,
        FishParam::GrowthRate.with(s, v).growth_rate == v,
        FishParam::Separation.field(s) == s.separation,
        FishParam::Separation.with(s, v).separation == v,
        FishParam::Alignment.field(s) == s.alignment,
        FishParam::Alignment.with(s, v).alignment == v,
        FishParam::Cohesion.field(s) == s.cohesion,
        FishParam::Cohesion.with(s, v).cohesion == v,
        FishParam::WaveFreq.field(s) == s.wave_freq,
        FishParam::WaveFreq.with(s, v).wave_freq == v,
        FishParam::WaveAmp.field(s) == s.wave_amp,
        FishParam::WaveAmp.with(s, v).wave_amp == v,
        FishParam::Caustics.field(s) == s.caustics,
        FishParam::Caustics.with(s, v).caustics == v,
        FishParam::Sparkle.field(s) == s.sparkle,
        FishParam::Sparkle.with(s, v).sparkle == v,
        FishParam::RippleStrength.field(s) == s.ripple_strength,
        FishParam::RippleStrength.with(s, v).ripple_strength == v,
        FishParam::BubbleCount.field(s) == s.bubble_count,
        FishParam::BubbleCount.with(s, v).bubble_count == v,
{
}

/// Settings are mapped value by value, and what is no number stays.
pub proof fn law_mapping_goes_value_by_value<V: Copy, W, F: Fn(V) -> W>(
    param: FishParam,
    s: FishSettings<V>,
    f: F,
)
    ensures
        param.field(s.mapped(f)) == answer1(f, param.field(s)),
        s.mapped(f).wave == s.wave,
        s.mapped(f).water == s.water,
        s.mapped(f).style == s.style,
        s.mapped(f).ripples == s.ripples,
        s.mapped(f).bubbles == s.bubbles,
{
}

/// Every switch reads and flips the setting that it is named after, and no other.
pub proof fn law_switches_name_their_settings<V>(s: FishSettings<V>, t: WaterToggle, o: WaterToggle)
    ensures
        WaterToggle::Water.on(s) == s.water,
        WaterToggle::Ripples.on(s) == s.ripples,
        WaterToggle::Bubbles.on(s) == s.bubbles,
        WaterToggle::Water.flipped(s).water == !s.water,
        WaterToggle::Ripples.flipped(s).ripples == !s.ripples,
        WaterToggle::Bubbles.flipped(s).bubbles == !s.bubbles,
        o != t ==> o.on(t.flipped(s)) == o.on(s),
        t.flipped(t.flipped(s)) == s,
{
}

/// A row is shown while what it adjusts is there: the rows of a school while there
/// is one, the rows of the weave, the ripples and the bubbles while these are on.
pub proof fn law_rows_are_shown_with_what_they_adjust<V>(s: FishSettings<V>, fish: usize)
    ensures
        FishRow::Always.shown(s, fish),
        FishRow::School.shown(s, fish) <==> fish >= 2,
        FishRow::Wave.shown(s, fish) <==> s.wave,
        s.water ==> FishRow::Water.shown(s, fish),
        s.water ==> (FishRow::Ripple.shown(s, fish) <==> s.ripples),
        s.water ==> (FishRow::Bubble.shown(s, fish) <==> s.bubbles),
{
}

} // verus!
