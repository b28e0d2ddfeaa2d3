//! The forest's tunables.

use vstd::prelude::*;

use crate::oracle::{
    answer1, answer3, answered1, answered3, lemma_answer1, lemma_answer3, single_valued1,
    single_valued3,
};
use crate::cli::{given, given_or};
use crate::forest::model::{GeoSig, StructSig};
use crate::pattern::same_number;

verus! {

/// The tunables of the forest.
#[derive(Clone, Copy)]
pub struct ForestSettings<V> {
    /// How many trees there are.
    pub count: V,
    /// The rounds that the trees grow.
    pub growth: V,
    /// The chance that a node rests a round.
    pub no_expand: V,
    /// The chance that a segment lengthens.
    pub forward: V,
    /// The weight of the branch shape that leans left.
    pub branch_left: V,
    /// The weight of the branch shape that leans right.
    pub branch_right: V,
    /// The weight of the even branch shape.
    pub branch_center: V,
    /// The angle between branches, in half turns.
    pub branch_angle: V,
    /// The length of a segment, in pixels.
    pub branch_length: V,
    /// The width of the trunk, in pixels.
    pub trunk_width: V,
    /// How much the trees differ in size.
    pub size_variation: V,
    /// The hue of the trunk, in degrees.
    pub hue: V,
    /// The turn of the hue per level, in degrees.
    pub hue_spread: V,
    /// The lightness of the trunk, in percent.
    pub brightness: V,
    /// How strongly the trees sway.
    pub wind: V,
    /// The radius of a leaf, in pixels.
    pub leaf_size: V,
    /// The share of tips with a leaf.
    pub leaf_density: V,
    /// The hue of the leaves, in degrees.
    pub leaf_hue: V,
    /// Whether the trees have leaves.
    pub leaves: bool,
}

impl Default for ForestSettings<i64> {
    /// The authored values, in thousandths.
    fn default() -> (s: ForestSettings<i64>)
        ensures
            s == (ForestSettings {
                count: 5000i64,
                growth: 12_000i64,
                no_expand: 100i64,
                forward: 400i64,
                branch_left: 500i64,
                branch_right: 500i64,
                branch_center: 0i64,
                branch_angle: 100i64,
                branch_length: 5000i64,
                trunk_width: 15_000i64,
                size_variation: 0i64,
                hue: 0i64,
                hue_spread: 1000i64,
                brightness: 10_000i64,
                wind: 0i64,
                leaf_size: 6000i64,
                leaf_density: 600i64,
                leaf_hue: 110_000i64,
                leaves: false,
            }),
    {
        ForestSettings {
            count: 5000,
            growth: 12_000,
            no_expand: 100,
            forward: 400,
            branch_left: 500,
            branch_right: 500,
            branch_center: 0,
            branch_angle: 100,
            branch_length: 5000,
            trunk_width: 15_000,
            size_variation: 0,
            hue: 0,
            hue_spread: 1000,
            brightness: 10_000,
            wind: 0,
            leaf_size: 6000,
            leaf_density: 600,
            leaf_hue: 110_000,
            leaves: false,
        }
    }
}

impl<V: Copy> ForestSettings<V> {
    /// The settings with every value put through `f`.
    pub open spec fn mapped<W, F: Fn(V) -> W>(self, f: F) -> ForestSettings<W> {
        ForestSettings {
            count: answer1(f, self.count),
            growth: answer1(f, self.growth),
            no_expand: answer1(f, self.no_expand),
            forward: answer1(f, self.forward),
            branch_left: answer1(f, self.branch_left),
            branch_right: answer1(f, self.branch_right),
            branch_center: answer1(f, self.branch_center),
            branch_angle: answer1(f, self.branch_angle),
            branch_length: answer1(f, self.branch_length),
            trunk_width: answer1(f, self.trunk_width),
            size_variation: answer1(f, self.size_variation),
            hue: answer1(f, self.hue),
            hue_spread: answer1(f, self.hue_spread),
            brightness: answer1(f, self.brightness),
            wind: answer1(f, self.wind),
            leaf_size: answer1(f, self.leaf_size),
            leaf_density: answer1(f, self.leaf_density),
            leaf_hue: answer1(f, self.leaf_hue),
            leaves: self.leaves,
        }
    }

    /// The settings with every value put through `f`.
    pub fn map<W, F: Fn(V) -> W>(&self, f: F) -> (s: ForestSettings<W>)
        requires
            single_valued1(f),
            forall|v: V| f.requires((v,)),
        ensures
            s == self.mapped(f),
            f.ensures((self.count,), s.count),
            f.ensures((self.growth,), s.growth),
            f.ensures((self.no_expand,), s.no_expand),
            f.ensures((self.forward,), s.forward),
            f.ensures((self.branch_left,), s.branch_left),
            f.ensures((self.branch_right,), s.branch_right),
            f.ensures((self.branch_center,), s.branch_center),
            f.ensures((self.branch_angle,), s.branch_angle),
            f.ensures((self.branch_length,), s.branch_length),
            f.ensures((self.trunk_width,), s.trunk_width),
            f.ensures((self.size_variation,), s.size_variation),
            f.ensures((self.hue,), s.hue),
            f.ensures((self.hue_spread,), s.hue_spread),
            f.ensures((self.brightness,), s.brightness),
            f.ensures((self.wind,), s.wind),
            f.ensures((self.leaf_size,), s.leaf_size),
            f.ensures((self.leaf_density,), s.leaf_density),
            f.ensures((self.leaf_hue,), s.leaf_hue),
    {
        let count: W = f(self.count);
        let growth: W = f(self.growth);
        let no_expand: W = f(self.no_expand);
        let forward: W = f(self.forward);
        let branch_left: W = f(self.branch_left);
        let branch_right: W = f(self.branch_right);
        let branch_center: W = f(self.branch_center);
        let branch_angle: W = f(self.branch_angle);
        let branch_length: W = f(self.branch_length);
        let trunk_width: W = f(self.trunk_width);
        let size_variation: W = f(self.size_variation);
        let hue: W = f(self.hue);
        let hue_spread: W = f(self.hue_spread);
        let brightness: W = f(self.brightness);
        let wind: W = f(self.wind);
        let leaf_size: W = f(self.leaf_size);
        let leaf_density: W = f(self.leaf_density);
        let leaf_hue: W = f(self.leaf_hue);
        proof {
            lemma_answer1(f, self.count, count);
            lemma_answer1(f, self.growth, growth);
            lemma_answer1(f, self.no_expand, no_expand);
            lemma_answer1(f, self.forward, forward);
            lemma_answer1(f, self.branch_left, branch_left);
            lemma_answer1(f, self.branch_right, branch_right);
            lemma_answer1(f, self.branch_center, branch_center);
            lemma_answer1(f, self.branch_angle, branch_angle);
            lemma_answer1(f, self.branch_length, branch_length);
            lemma_answer1(f, self.trunk_width, trunk_width);
            lemma_answer1(f, self.size_variation, size_variation);
            lemma_answer1(f, self.hue, hue);
            lemma_answer1(f, self.hue_spread, hue_spread);
            lemma_answer1(f, self.brightness, brightness);
            lemma_answer1(f, self.wind, wind);
            lemma_answer1(f, self.leaf_size, leaf_size);
            lemma_answer1(f, self.leaf_density, leaf_density);
            lemma_answer1(f, self.leaf_hue, leaf_hue);
        }
        ForestSettings {
            count,
            growth,
            no_expand,
            forward,
            branch_left,
            branch_right,
            branch_center,
            branch_angle,
            branch_length,
            trunk_width,
            size_variation,
            hue,
            hue_spread,
            brightness,
            wind,
            leaf_size,
            leaf_density,
            leaf_hue,
            leaves: self.leaves,
        }
    }
}

/// The sliders of the forest.
#[derive(Clone, Copy, Debug, PartialEq, Eq, Structural)]
pub enum ForestParam {
    Count,
    Growth,
    NoExpand,
    Forward,
    BranchLeft,
    BranchRight,
    BranchCenter,
    BranchAngle,
    BranchLength,
    TrunkWidth,
    SizeVariation,
    Hue,
    HueSpread,
    Brightness,
    Wind,
    LeafSize,
    LeafDensity,
    LeafHue,
}

impl ForestParam {
    /// The sliders that are always shown, in their order.
    pub fn always() -> (group: [ForestParam; 15])
        ensures
            group@ == seq![
                ForestParam::Count,
                ForestParam::Growth,
                ForestParam::NoExpand,
                ForestParam::Forward,
                ForestParam::BranchLeft,
                ForestParam::BranchRight,
                ForestParam::BranchCenter,
                ForestParam::BranchAngle,
                ForestParam::BranchLength,
                ForestParam::TrunkWidth,
                ForestParam::SizeVariation,
                ForestParam::Hue,
                ForestParam::HueSpread,
                ForestParam::Brightness,
                ForestParam::Wind,
            ],
    {
        [
            ForestParam::Count,
            ForestParam::Growth,
            ForestParam::NoExpand,
            ForestParam::Forward,
            ForestParam::BranchLeft,
            ForestParam::BranchRight,
            ForestParam::BranchCenter,
            ForestParam::BranchAngle,
            ForestParam::BranchLength,
            ForestParam::TrunkWidth,
            ForestParam::SizeVariation,
            ForestParam::Hue,
            ForestParam::HueSpread,
            ForestParam::Brightness,
            ForestParam::Wind,
        ]
    }

    /// The sliders that are shown while the trees have leaves.
    pub fn leaf() -> (group: [ForestParam; 3])
        ensures
            group@ == seq![
                ForestParam::LeafSize,
                ForestParam::LeafDensity,
                ForestParam::LeafHue,
            ],
    {
        [
            ForestParam::LeafSize,
            ForestParam::LeafDensity,
            ForestParam::LeafHue,
        ]
    }

    /// The slider's name.
    pub fn label(self) -> (name: &'static str)
        ensures
            name@ == (match self {
                ForestParam::Count => "Trees"@,
                ForestParam::Growth => "Growth"@,
                ForestParam::NoExpand => "No-expand"@,
                ForestParam::Forward => "Forward"@,
                ForestParam::BranchLeft => "Branch left"@,
                ForestParam::BranchRight => "Branch right"@,
                ForestParam::BranchCenter => "Branch center"@,
                ForestParam::BranchAngle => "Branch angle"@,
                ForestParam::BranchLength => "Branch length"@,
                ForestParam::TrunkWidth => "Trunk width"@,
                ForestParam::SizeVariation => "Size variation"@,
                ForestParam::Hue => "Base hue"@,
                ForestParam::HueSpread => "Hue spread"@,
                ForestParam::Brightness => "Brightness"@,
                ForestParam::Wind => "Wind"@,
                ForestParam::LeafSize => "Leaf size"@,
                ForestParam::LeafDensity => "Leaf density"@,
                ForestParam::LeafHue => "Leaf hue"@,
            }),
    {
        match self {
            ForestParam::Count => "Trees",
            ForestParam::Growth => "Growth",
            ForestParam::NoExpand => "No-expand",
            ForestParam::Forward => "Forward",
            ForestParam::BranchLeft => "Branch left",
            ForestParam::BranchRight => "Branch right",
            ForestParam::BranchCenter => "Branch center",
            ForestParam::BranchAngle => "Branch angle",
            ForestParam::BranchLength => "Branch length",
            ForestParam::TrunkWidth => "Trunk width",
            ForestParam::SizeVariation => "Size variation",
            ForestParam::Hue => "Base hue",
            ForestParam::HueSpread => "Hue spread",
            ForestParam::Brightness => "Brightness",
            ForestParam::Wind => "Wind",
            ForestParam::LeafSize => "Leaf size",
            ForestParam::LeafDensity => "Leaf density",
            ForestParam::LeafHue => "Leaf hue",
        }
    }

    /// The least and the greatest value, in thousandths.
    pub open spec fn bounds(self) -> (i64, i64) {
        match self {
            ForestParam::Count => (1000i64, 700_000i64),
            ForestParam::Growth => (4000i64, 15_000i64),
            ForestParam::NoExpand => (0i64, 900i64),
            ForestParam::Forward => (0i64, 1000i64),
            ForestParam::BranchLeft => (0i64, 1000i64),
            ForestParam::BranchRight => (0i64, 1000i64),
            ForestParam::BranchCenter => (0i64, 1000i64),
            ForestParam::BranchAngle => (0i64, 600i64),
            ForestParam::BranchLength => (500i64, 12_000i64),
            ForestParam::TrunkWidth => (1000i64, 60_000i64),
            ForestParam::SizeVariation => (0i64, 800i64),
            ForestParam::Hue => (0i64, 360_000i64),
            ForestParam::HueSpread => (0i64, 120_000i64),
            ForestParam::Brightness => (1000i64, 60_000i64),
            ForestParam::Wind => (0i64, 1000i64),
            ForestParam::LeafSize => (1000i64, 20_000i64),
            ForestParam::LeafDensity => (0i64, 1000i64),
            ForestParam::LeafHue => (0i64, 360_000i64),
        }
    }

    /// The least and the greatest value, in thousandths.
    pub fn range(self) -> (range: (i64, i64))
        ensures
            range == self.bounds(),
    {
        match self {
            ForestParam::Count => (1000, 700_000),
            ForestParam::Growth => (4000, 15_000),
            ForestParam::NoExpand => (0, 900),
            ForestParam::Forward => (0, 1000),
            ForestParam::BranchLeft => (0, 1000),
            ForestParam::BranchRight => (0, 1000),
            ForestParam::BranchCenter => (0, 1000),
            ForestParam::BranchAngle => (0, 600),
            ForestParam::BranchLength => (500, 12_000),
            ForestParam::TrunkWidth => (1000, 60_000),
            ForestParam::SizeVariation => (0, 800),
            ForestParam::Hue => (0, 360_000),
            ForestParam::HueSpread => (0, 120_000),
            ForestParam::Brightness => (1000, 60_000),
            ForestParam::Wind => (0, 1000),
            ForestParam::LeafSize => (1000, 20_000),
            ForestParam::LeafDensity => (0, 1000),
            ForestParam::LeafHue => (0, 360_000),
        }
    }

    /// The decimals that a value is shown with.
    pub fn decimals(self) -> (n: u32)
        ensures
            n == (match self {
                ForestParam::Count => 0u32,
                ForestParam::Growth => 0u32,
                ForestParam::NoExpand => 2u32,
                ForestParam::Forward => 2u32,
                ForestParam::BranchLeft => 2u32,
                ForestParam::BranchRight => 2u32,
                ForestParam::BranchCenter => 2u32,
                ForestParam::BranchAngle => 2u32,
                ForestParam::BranchLength => 1u32,
                ForestParam::TrunkWidth => 0u32,
                ForestParam::SizeVariation => 2u32,
                ForestParam::Hue => 0u32,
                ForestParam::HueSpread => 0u32,
                ForestParam::Brightness => 0u32,
                ForestParam::Wind => 2u32,
                ForestParam::LeafSize => 1u32,
                ForestParam::LeafDensity => 2u32,
                ForestParam::LeafHue => 0u32,
            }),
    {
        match self {
            ForestParam::Count => 0,
            ForestParam::Growth => 0,
            ForestParam::NoExpand => 2,
            ForestParam::Forward => 2,
            ForestParam::BranchLeft => 2,
            ForestParam::BranchRight => 2,
            ForestParam::BranchCenter => 2,
            ForestParam::BranchAngle => 2,
            ForestParam::BranchLength => 1,
            ForestParam::TrunkWidth => 0,
            ForestParam::SizeVariation => 2,
            ForestParam::Hue => 0,
            ForestParam::HueSpread => 0,
            ForestParam::Brightness => 0,
            ForestParam::Wind => 2,
            ForestParam::LeafSize => 1,
            ForestParam::LeafDensity => 2,
            ForestParam::LeafHue => 0,
        }
    }

    /// Whether the slider doubles its value over equal ways, so that the low
    /// end of a wide range stays usable.
    pub fn is_log(self) -> (log: bool)
        ensures
            log == (self == ForestParam::Count),
    {
        self == ForestParam::Count
    }

    /// The value that the slider shows.
    pub open spec fn field<V>(self, s: ForestSettings<V>) -> V {
        match self {
            ForestParam::Count => s.count,
            ForestParam::Growth => s.growth,
            ForestParam::NoExpand => s.no_expand,
            ForestParam::Forward => s.forward,
            ForestParam::BranchLeft => s.branch_left,
            ForestParam::BranchRight => s.branch_right,
            ForestParam::BranchCenter => s.branch_center,
            ForestParam::BranchAngle => s.branch_angle,
            ForestParam::BranchLength => s.branch_length,
            ForestParam::TrunkWidth => s.trunk_width,
            ForestParam::SizeVariation => s.size_variation,
            ForestParam::Hue => s.hue,
            ForestParam::HueSpread => s.hue_spread,
            ForestParam::Brightness => s.brightness,
            ForestParam::Wind => s.wind,
            ForestParam::LeafSize => s.leaf_size,
            ForestParam::LeafDensity => s.leaf_density,
            ForestParam::LeafHue => s.leaf_hue,
        }
    }

    /// The settings with the slider's value replaced.
    pub open spec fn with<V>(self, s: ForestSettings<V>, v: V) -> ForestSettings<V> {
        match self {
            ForestParam::Count => ForestSettings { count: v, ..s },
            ForestParam::Growth => ForestSettings { growth: v, ..s },
            ForestParam::NoExpand => ForestSettings { no_expand: v, ..s },
            ForestParam::Forward => ForestSettings { forward: v, ..s },
            ForestParam::BranchLeft => ForestSettings { branch_left: v, ..s },
            ForestParam::BranchRight => ForestSettings { branch_right: v, ..s },
            ForestParam::BranchCenter => ForestSettings { branch_center: v, ..s },
            ForestParam::BranchAngle => ForestSettings { branch_angle: v, ..s },
            ForestParam::BranchLength => ForestSettings { branch_length: v, ..s },
            ForestParam::TrunkWidth => ForestSettings { trunk_width: v, ..s },
            ForestParam::SizeVariation => ForestSettings { size_variation: v, ..s },
            ForestParam::Hue => ForestSettings { hue: v, ..s },
            ForestParam::HueSpread => ForestSettings { hue_spread: v, ..s },
            ForestParam::Brightness => ForestSettings { brightness: v, ..s },
            ForestParam::Wind => ForestSettings { wind: v, ..s },
            ForestParam::LeafSize => ForestSettings { leaf_size: v, ..s },
            ForestParam::LeafDensity => ForestSettings { leaf_density: v, ..s },
            ForestParam::LeafHue => ForestSettings { leaf_hue: v, ..s },
        }
    }

    /// The value that the slider shows.
    pub fn get<V: Copy>(self, s: &ForestSettings<V>) -> (v: V)
        ensures
            v == self.field(*s),
    {
        match self {
            ForestParam::Count => s.count,
            ForestParam::Growth => s.growth,
            ForestParam::NoExpand => s.no_expand,
            ForestParam::Forward => s.forward,
            ForestParam::BranchLeft => s.branch_left,
            ForestParam::BranchRight => s.branch_right,
            ForestParam::BranchCenter => s.branch_center,
            ForestParam::BranchAngle => s.branch_angle,
            ForestParam::BranchLength => s.branch_length,
            ForestParam::TrunkWidth => s.trunk_width,
            ForestParam::SizeVariation => s.size_variation,
            ForestParam::Hue => s.hue,
            ForestParam::HueSpread => s.hue_spread,
            ForestParam::Brightness => s.brightness,
            ForestParam::Wind => s.wind,
            ForestParam::LeafSize => s.leaf_size,
            ForestParam::LeafDensity => s.leaf_density,
            ForestParam::LeafHue => s.leaf_hue,
        }
    }

    /// Set the slider's value, brought into its range by `clamp`.
    pub fn set<V: Copy, C: Fn(V, i64, i64) -> V>(self, s: &mut ForestSettings<V>, value: V, clamp: C)
        requires
            single_valued3(clamp),
            forall|v: V, lo: i64, hi: i64| clamp.requires((v, lo, hi)),
        ensures
            *final(s) == self.with(
                *old(s),
                answer3(clamp, value, self.bounds().0, self.bounds().1),
            ),
            answered3(clamp, value, self.bounds().0, self.bounds().1),
    {
        let (lo, hi) = self.range();
        let v: V = clamp(value, lo, hi);
        proof {
            lemma_answer3(clamp, value, lo, hi, v);
        }
        match self {
            ForestParam::Count => {
                s.count = v;
            },
            ForestParam::Growth => {
                s.growth = v;
            },
            ForestParam::NoExpand => {
                s.no_expand = v;
            },
            ForestParam::Forward => {
                s.forward = v;
            },
            ForestParam::BranchLeft => {
                s.branch_left = v;
            },
            ForestParam::BranchRight => {
                s.branch_right = v;
            },
            ForestParam::BranchCenter => {
                s.branch_center = v;
            },
            ForestParam::BranchAngle => {
                s.branch_angle = v;
            },
            ForestParam::BranchLength => {
                s.branch_length = v;
            },
            ForestParam::TrunkWidth => {
                s.trunk_width = v;
            },
            ForestParam::SizeVariation => {
                s.size_variation = v;
            },
            ForestParam::Hue => {
                s.hue = v;
            },
            ForestParam::HueSpread => {
                s.hue_spread = v;
            },
            ForestParam::Brightness => {
                s.brightness = v;
            },
            ForestParam::Wind => {
                s.wind = v;
            },
            ForestParam::LeafSize => {
                s.leaf_size = v;
            },
            ForestParam::LeafDensity => {
                s.leaf_density = v;
            },
            ForestParam::LeafHue => {
                s.leaf_hue = v;
            },
        }
    }

    /// What the slider does, for its hover help.
    pub fn tip(self) -> (text: &'static str)
        ensures
            text@ == (match self {
                ForestParam::Count => "How many trees grow, spread across the ground."@,
                ForestParam::Growth => "L-system iterations. Each level roughly doubles the string, so high values grow dense, detailed trees (and cost more to regrow)."@,
                ForestParam::NoExpand => "Chance a node rests an iteration - gnarlier, less regular trees."@,
                ForestParam::Forward => "Chance a branch segment lengthens (F -> FF). Higher = longer limbs."@,
                ForestParam::BranchLeft => "Relative weight of the left-leaning two-way branch."@,
                ForestParam::BranchRight => "Relative weight of the right-leaning two-way branch."@,
                ForestParam::BranchCenter => "Relative weight of the symmetric three-way branch."@,
                ForestParam::BranchAngle => "Angle between child branches (x pi). 0 = a straight broom."@,
                ForestParam::BranchLength => "Length of each branch segment, in pixels."@,
                ForestParam::TrunkWidth => "Trunk width in pixels; branches taper to 0.8x of it per level."@,
                ForestParam::SizeVariation => "Random size spread between trees, for depth. 0 = every tree the same size."@,
                ForestParam::Hue => "Trunk hue in degrees (0 = red, the default)."@,
                ForestParam::HueSpread => "How far the hue rotates per branch level."@,
                ForestParam::Brightness => "Trunk lightness in percent; branches brighten 1.2x per level."@,
                ForestParam::Wind => "Sway strength. 0 = a static forest; higher = a stronger breeze through the canopy."@,
                ForestParam::LeafSize => "Leaf radius in pixels."@,
                ForestParam::LeafDensity => "Fraction of twig tips that sprout a leaf."@,
                ForestParam::LeafHue => "Leaf hue in degrees (110 = green)."@,
            }),
    {
        match self {
            ForestParam::Count => "How many trees grow, spread across the ground.",
            ForestParam::Growth => "L-system iterations. Each level roughly doubles the string, so high values grow dense, detailed trees (and cost more to regrow).",
            ForestParam::NoExpand => "Chance a node rests an iteration - gnarlier, less regular trees.",
            ForestParam::Forward => "Chance a branch segment lengthens (F -> FF). Higher = longer limbs.",
            ForestParam::BranchLeft => "Relative weight of the left-leaning two-way branch.",
            ForestParam::BranchRight => "Relative weight of the right-leaning two-way branch.",
            ForestParam::BranchCenter => "Relative weight of the symmetric three-way branch.",
            ForestParam::BranchAngle => "Angle between child branches (x pi). 0 = a straight broom.",
            ForestParam::BranchLength => "Length of each branch segment, in pixels.",
            ForestParam::TrunkWidth => "Trunk width in pixels; branches taper to 0.8x of it per level.",
            ForestParam::SizeVariation => "Random size spread between trees, for depth. 0 = every tree the same size.",
            ForestParam::Hue => "Trunk hue in degrees (0 = red, the default).",
            ForestParam::HueSpread => "How far the hue rotates per branch level.",
            ForestParam::Brightness => "Trunk lightness in percent; branches brighten 1.2x per level.",
            ForestParam::Wind => "Sway strength. 0 = a static forest; higher = a stronger breeze through the canopy.",
            ForestParam::LeafSize => "Leaf radius in pixels.",
            ForestParam::LeafDensity => "Fraction of twig tips that sprout a leaf.",
            ForestParam::LeafHue => "Leaf hue in degrees (110 = green).",
        }
    }
}

/// What was set reads back, and nothing else has changed.
pub proof fn law_set_changes_one_value<V>(param: ForestParam, other: ForestParam, s: ForestSettings<V>, v: V)
    ensures
        param.field(param.with(s, v)) == v,
        other != param ==> other.field(param.with(s, v)) == other.field(s),
        param.with(s, v).leaves == s.leaves,
{
}

/// Every authored value lies in its slider's range.
pub proof fn law_authored_values_are_in_range(param: ForestParam, s: ForestSettings<i64>)
    requires
        call_ensures(ForestSettings::<i64>::default, (), s),
    ensures
        param.bounds().0 <= param.field(s) <= param.bounds().1,
        param.bounds().0 < param.bounds().1,
{
}

/// One control of the panel and the popup.
#[derive(Clone, Copy, Debug, PartialEq, Eq, Structural)]
pub enum ForestControl {
    Slider(ForestParam),
    /// The checkbox of the leaves.
    Leaves,
    /// The button for a new forest.
    NewForest,
}

impl ForestControl {
    /// The control is shown.
    pub fn visible<V>(self, s: &ForestSettings<V>) -> (shown: bool)
        ensures
            shown == (match self {
                ForestControl::Slider(
                    ForestParam::LeafSize | ForestParam::LeafDensity | ForestParam::LeafHue,
                ) => s.leaves,
                _ => true,
            }),
    {
        match self {
            ForestControl::Slider(
                ForestParam::LeafSize | ForestParam::LeafDensity | ForestParam::LeafHue,
            ) => s.leaves,
            _ => true,
        }
    }
}

/// The controls of the panel and the popup, in their order.
pub fn controls() -> (cells: Vec<ForestControl>)
    ensures
        cells@ == seq![
            ForestControl::Slider(ForestParam::Count),
            ForestControl::Slider(ForestParam::Growth),
            ForestControl::Slider(ForestParam::NoExpand),
            ForestControl::Slider(ForestParam::Forward),
            ForestControl::Slider(ForestParam::BranchLeft),
            ForestControl::Slider(ForestParam::BranchRight),
            ForestControl::Slider(ForestParam::BranchCenter),
            ForestControl::Slider(ForestParam::BranchAngle),
            ForestControl::Slider(ForestParam::BranchLength),
            ForestControl::Slider(ForestParam::TrunkWidth),
            ForestControl::Slider(ForestParam::SizeVariation),
            ForestControl::Slider(ForestParam::Hue),
            ForestControl::Slider(ForestParam::HueSpread),
            ForestControl::Slider(ForestParam::Brightness),
            ForestControl::Slider(ForestParam::Wind),
            ForestControl::Leaves,
            ForestControl::Slider(ForestParam::LeafSize),
            ForestControl::Slider(ForestParam::LeafDensity),
            ForestControl::Slider(ForestParam::LeafHue),
            ForestControl::NewForest,
        ],
{
    let mut cells: Vec<ForestControl> = Vec::new();
    cells.push(ForestControl::Slider(ForestParam::Count));
    cells.push(ForestControl::Slider(ForestParam::Growth));
    cells.push(ForestControl::Slider(ForestParam::NoExpand));
    cells.push(ForestControl::Slider(ForestParam::Forward));
    cells.push(ForestControl::Slider(ForestParam::BranchLeft));
    cells.push(ForestControl::Slider(ForestParam::BranchRight));
    cells.push(ForestControl::Slider(ForestParam::BranchCenter));
    cells.push(ForestControl::Slider(ForestParam::BranchAngle));
    cells.push(ForestControl::Slider(ForestParam::BranchLength));
    cells.push(ForestControl::Slider(ForestParam::TrunkWidth));
    cells.push(ForestControl::Slider(ForestParam::SizeVariation));
    cells.push(ForestControl::Slider(ForestParam::Hue));
    cells.push(ForestControl::Slider(ForestParam::HueSpread));
    cells.push(ForestControl::Slider(ForestParam::Brightness));
    cells.push(ForestControl::Slider(ForestParam::Wind));
    cells.push(ForestControl::Leaves);
    cells.push(ForestControl::Slider(ForestParam::LeafSize));
    cells.push(ForestControl::Slider(ForestParam::LeafDensity));
    cells.push(ForestControl::Slider(ForestParam::LeafHue));
    cells.push(ForestControl::NewForest);
    cells
}

impl StructSig {
    /// What of the settings the trees' tokens depend on. The settings hold bit
    /// patterns; `growth` is the tuned growth in whole rounds.
    pub open spec fn of_settings(s: ForestSettings<u32>, growth: u32) -> StructSig {
        StructSig {
            growth,
            no_expand: s.no_expand,
            forward: s.forward,
            left: s.branch_left,
            right: s.branch_right,
            center: s.branch_center,
        }
    }

    /// What of the settings the trees' tokens depend on.
    pub fn of(s: &ForestSettings<u32>, growth: u32) -> (sig: StructSig)
        ensures
            sig == StructSig::of_settings(*s, growth),
    {
        StructSig {
            growth,
            no_expand: s.no_expand,
            forward: s.forward,
            left: s.branch_left,
            right: s.branch_right,
            center: s.branch_center,
        }
    }
}

impl GeoSig {
    /// What of the settings the trees' drawing depends on besides their tokens,
    /// in a window of the given size. All measures are bit patterns.
    pub open spec fn of_settings(s: ForestSettings<u32>, width: u32, height: u32) -> GeoSig {
        GeoSig {
            branch_angle: s.branch_angle,
            branch_length: s.branch_length,
            trunk_width: s.trunk_width,
            size_variation: s.size_variation,
            leaves: s.leaves,
            leaf_size: s.leaf_size,
            leaf_density: s.leaf_density,
            width,
            height,
        }
    }

    /// What of the settings the trees' drawing depends on besides their tokens.
    pub fn of(s: &ForestSettings<u32>, width: u32, height: u32) -> (sig: GeoSig)
        ensures
            sig == GeoSig::of_settings(*s, width, height),
    {
        GeoSig {
            branch_angle: s.branch_angle,
            branch_length: s.branch_length,
            trunk_width: s.trunk_width,
            size_variation: s.size_variation,
            leaves: s.leaves,
            leaf_size: s.leaf_size,
            leaf_density: s.leaf_density,
            width,
            height,
        }
    }
}

/// The slider changes the trees' tokens.
pub open spec fn is_structural(param: ForestParam) -> bool {
    match param {
        ForestParam::Growth | ForestParam::NoExpand | ForestParam::Forward | ForestParam::BranchLeft
        | ForestParam::BranchRight | ForestParam::BranchCenter => true,
        _ => false,
    }
}

/// The slider changes how the trees are drawn.
pub open spec fn is_geometric(param: ForestParam) -> bool {
    match param {
        ForestParam::BranchAngle | ForestParam::BranchLength | ForestParam::TrunkWidth
        | ForestParam::SizeVariation | ForestParam::LeafSize | ForestParam::LeafDensity => true,
        _ => false,
    }
}

/// A slider moves the signature of what it changes and no other: the sliders of
/// colour and wind move none, so that they never rebuild the forest.
pub proof fn law_signatures_track_their_sliders(
    param: ForestParam,
    s: ForestSettings<u32>,
    v: u32,
    growth: u32,
    width: u32,
    height: u32,
)
    requires
        !same_number(param.field(s), v),
        param != ForestParam::Growth,
        StructSig::of_settings(s, growth).is_measured(),
        GeoSig::of_settings(s, width, height).is_measured(),
    ensures
        !StructSig::of_settings(s, growth).same(StructSig::of_settings(param.with(s, v), growth))
            <==> is_structural(param),
        !GeoSig::of_settings(s, width, height).same(
            GeoSig::of_settings(param.with(s, v), width, height),
        ) <==> is_geometric(param),
{
}

/// Another number of rounds is another signature of the tokens, and not of the
/// drawing.
pub proof fn law_growth_moves_the_signature(s: ForestSettings<u32>, a: u32, b: u32)
    requires
        a != b,
    ensures
        !StructSig::of_settings(s, a).same(StructSig::of_settings(s, b)),
{
}

/// What a perf run's arguments ask of the forest.
#[derive(Clone, Copy)]
pub struct ForestCli<V> {
    pub count: Option<V>,
    pub wind: bool,
    pub leaves: bool,
    pub dense: bool,
    pub growth: Option<V>,
    pub length: Option<V>,
    pub angle: Option<V>,
    pub forward: Option<V>,
    pub wind_value: Option<V>,
    pub leaf_density: Option<V>,
}

impl<V: Copy> ForestSettings<V> {
    /// The settings of a perf run: its flags, and on top its values, none of
    /// which a slider's range clamps. `dense` is the worst case of the
    /// branching. `milli` makes a value of thousandths.
    pub open spec fn with_cli<M: Fn(i64) -> V>(
        self,
        cli: ForestCli<V>,
        milli: M,
    ) -> ForestSettings<V> {
        let one = answer1(milli, 1000);
        let wind = if cli.wind {
            answer1(milli, 500)
        } else {
            self.wind
        };
        let leaf_density = if cli.leaves {
            one
        } else {
            self.leaf_density
        };
        let shape = if cli.dense {
            ForestSettings {
                growth: answer1(milli, 15_000),
                no_expand: answer1(milli, 0),
                forward: one,
                branch_left: one,
                branch_right: one,
                branch_center: one,
                branch_length: one,
                branch_angle: answer1(milli, 250),
                ..self
            }
        } else {
            self
        };
        ForestSettings {
            count: given(cli.count, self.count),
            leaves: self.leaves || cli.leaves,
            growth: given(cli.growth, shape.growth),
            branch_length: given(cli.length, shape.branch_length),
            branch_angle: given(cli.angle, shape.branch_angle),
            forward: given(cli.forward, shape.forward),
            wind: given(cli.wind_value, wind),
            leaf_density: given(cli.leaf_density, leaf_density),
            ..shape
        }
    }

    /// Take over a perf run's arguments.
    pub fn apply_cli<M: Fn(i64) -> V>(&mut self, cli: ForestCli<V>, milli: M)
        requires
            single_valued1(milli),
            forall|m: i64| milli.requires((m,)),
        ensures
            *final(self) == old(self).with_cli(cli, milli),
            answered1(milli, 1000),
            answered1(milli, 500),
            answered1(milli, 0),
            answered1(milli, 15_000),
            answered1(milli, 250),
    {
        let one: V = milli(1000);
        let half: V = milli(500);
        let none: V = milli(0);
        let rounds: V = milli(15_000);
        let quarter: V = milli(250);
        proof {
            lemma_answer1(milli, 1000, one);
            lemma_answer1(milli, 500, half);
            lemma_answer1(milli, 0, none);
            lemma_answer1(milli, 15_000, rounds);
            lemma_answer1(milli, 250, quarter);
        }
        self.count = given_or(cli.count, self.count);
        if cli.wind {
            self.wind = half;
        }
        if cli.leaves {
            self.leaves = true;
            self.leaf_density = one;
        }
        if cli.dense {
            self.growth = rounds;
            self.no_expand = none;
            self.forward = one;
            self.branch_left = one;
            self.branch_right = one;
            self.branch_center = one;
            self.branch_length = one;
            self.branch_angle = quarter;
        }
        self.growth = given_or(cli.growth, self.growth);
        self.branch_length = given_or(cli.length, self.branch_length);
        self.branch_angle = given_or(cli.angle, self.branch_angle);
        self.forward = given_or(cli.forward, self.forward);
        self.wind = given_or(cli.wind_value, self.wind);
        self.leaf_density = given_or(cli.leaf_density, self.leaf_density);
    }
}

/// Every slider reads and moves the value that it is named after.
pub proof fn law_sliders_name_their_values<V>(s: ForestSettings<V>, v: V)
    ensures
        ForestParam::Count.field(s) == s.count,
        ForestParam::Count.with(s, v).count == v,
        ForestParam::Growth.field(s) == s.growth,
        ForestParam::Growth.with(s, v).growth == v,
        ForestParam::NoExpand.field(s) == s.no_expand,
        ForestParam::NoExpand.with(s, v).no_expand == v,
        ForestParam::Forward.field(s) == s.forward,
        ForestParam::Forward.with(s, v).forward == v,
        ForestParam::BranchLeft.field(s) == s.branch_left,
        ForestParam::BranchLeft.with(s, v).branch_left == v,
        ForestParam::BranchRight.field(s) == s.branch_right,
        ForestParam::BranchRight.with(s, v).branch_right == v,
        ForestParam::BranchCenter.field(s) == s.branch_center,
        ForestParam::BranchCenter.with(s, v).branch_center == v,
        ForestParam::BranchAngle.field(s) == s.branch_angle,
        ForestParam::BranchAngle.with(s, v).branch_angle == v,
        ForestParam::BranchLength.field(s) == s.branch_length,
        ForestParam::BranchLength.with(s, v).branch_length == v,
        ForestParam::TrunkWidth.field(s) == s.trunk_width,
        ForestParam::TrunkWidth.with(s, v).trunk_width == v,
        ForestParam::SizeVariation.field(s) == s.size_variation,
        ForestParam::SizeVariation.with(s, v).size_variation == v,
        ForestParam::Hue.field(s) == s.hue,
        ForestParam::Hue.with(s, v).hue == v,
        ForestParam::HueSpread.field(s) == s.hue_spread,
        ForestParam::HueSpread.with(s, v).hue_spread == v,
        ForestParam::Brightness.field(s) == s.brightness,
        ForestParam::Brightness.with(s, v).brightness == v,
        ForestParam::Wind.field(s) == s.wind,
        ForestParam::Wind.with(s, v).wind == v,
        ForestParam::LeafSize.field(s) == s.leaf_size,
        ForestParam::LeafSize.with(s, v).leaf_size == v,
        ForestParam::LeafDensity.field(s) == s.leaf_density,
        ForestParam::LeafDensity.with(s, v).leaf_density == v,
        ForestParam::LeafHue.field(s) == s.leaf_hue,
        ForestParam::LeafHue.with(s, v).leaf_hue == v,
{
}

/// Settings are mapped value by value, and what is no number stays.
pub proof fn law_mapping_goes_value_by_value<V: Copy, W, F: Fn(V) -> W>(
    param: ForestParam,
    s: ForestSettings<V>,
    f: F,
)
    ensures
        param.field(s.mapped(f)) == answer1(f, param.field(s)),
        s.mapped(f).leaves == s.leaves,
{
}

/// Growth and the chances change the tokens; the measures of branches, of trees and
/// of leaves change the drawing; the number of trees, the colours and the wind
/// change neither.
pub proof fn law_sliders_change_tokens_or_drawing(param: ForestParam)
    ensures
        !(is_structural(param) && is_geometric(param)),
        is_structural(ForestParam::Growth),
        is_structural(ForestParam::NoExpand),
        is_structural(ForestParam::Forward),
        is_structural(ForestParam::BranchLeft),
        is_structural(ForestParam::BranchRight),
        is_structural(ForestParam::BranchCenter),
        is_geometric(ForestParam::BranchAngle),
        is_geometric(ForestParam::BranchLength),
        is_geometric(ForestParam::TrunkWidth),
        is_geometric(ForestParam::SizeVariation),
        is_geometric(ForestParam::LeafSize),
        is_geometric(ForestParam::LeafDensity),
        param == ForestParam::Count || param == ForestParam::Hue || param == ForestParam::HueSpread
            || param == ForestParam::Brightness || param == ForestParam::Wind || param
            == ForestParam::LeafHue <==> !is_structural(param) && !is_geometric(param),
{
}

/// Leaves, and the window, change the drawing and not the tokens.
pub proof fn law_leaves_and_window_change_the_drawing(
    s: ForestSettings<u32>,
    growth: u32,
    leaves: bool,
    a: (u32, u32),
    b: (u32, u32),
)
    requires
        GeoSig::of_settings(s, a.0, a.1).is_measured(),
    ensures
        ({
            let t = ForestSettings { leaves, ..s };
            &&& StructSig::of_settings(t, growth) == StructSig::of_settings(s, growth)
            &&& GeoSig::of_settings(s, a.0, a.1).same(GeoSig::of_settings(t, b.0, b.1)) <==> leaves
                == s.leaves && same_number(a.0, b.0) && same_number(a.1, b.1)
        }),
{
}

/// The command line moves what it names and nothing else: without a word it moves
/// nothing; a value given outright stands, whatever the other words ask for; leaves
/// come on with all tips bearing one, and the densest forest grows longest, never
/// rests, always lengthens and branches evenly on the shortest segments.
pub proof fn law_command_line_moves_what_it_names<V: Copy, M: Fn(i64) -> V>(
    s: ForestSettings<V>,
    cli: ForestCli<V>,
    milli: M,
)
    ensures
        ({
            let t = s.with_cli(cli, milli);
            let one = answer1(milli, 1000);
            &&& cli.count is None && !cli.wind && !cli.leaves && !cli.dense && cli.growth is None
                && cli.length is None && cli.angle is None && cli.forward is None && cli.wind_value
                is None && cli.leaf_density is None ==> t == s
            &&& cli.count matches Some(v) ==> t.count == v
            &&& cli.growth matches Some(v) ==> t.growth == v
            &&& cli.length matches Some(v) ==> t.branch_length == v
            &&& cli.angle matches Some(v) ==> t.branch_angle == v
            &&& cli.forward matches Some(v) ==> t.forward == v
            &&& cli.wind_value matches Some(v) ==> t.wind == v
            &&& cli.leaf_density matches Some(v) ==> t.leaf_density == v
            &&& cli.count is None ==> t.count == s.count
            &&& cli.wind && cli.wind_value is None ==> t.wind == answer1(milli, 500)
            &&& !cli.wind && cli.wind_value is None ==> t.wind == s.wind
            &&& t.leaves == (s.leaves || cli.leaves)
            &&& cli.leaves && cli.leaf_density is None ==> t.leaf_density == one
            &&& !cli.leaves && cli.leaf_density is None ==> t.leaf_density == s.leaf_density
            &&& cli.dense ==> t.no_expand == answer1(milli, 0) && t.branch_left == one
                && t.branch_right == one && t.branch_center == one
            &&& cli.dense && cli.growth is None ==> t.growth == answer1(milli, 15_000)
            &&& cli.dense && cli.length is None ==> t.branch_length == one
            &&& cli.dense && cli.angle is None ==> t.branch_angle == answer1(milli, 250)
            &&& cli.dense && cli.forward is None ==> t.forward == one
            &&& !cli.dense ==> t.no_expand == s.no_expand && t.branch_left == s.branch_left
                && t.branch_right == s.branch_right && t.branch_center == s.branch_center
            &&& !cli.dense && cli.growth is None ==> t.growth == s.growth
            &&& !cli.dense && cli.length is None ==> t.branch_length == s.branch_length
            &&& !cli.dense && cli.angle is None ==> t.branch_angle == s.branch_angle
            &&& !cli.dense && cli.forward is None ==> t.forward == s.forward
            &&& t.trunk_width == s.trunk_width && t.size_variation == s.size_variation
            &&& t.hue == s.hue && t.hue_spread == s.hue_spread && t.brightness == s.brightness
            &&& t.leaf_size == s.leaf_size && t.leaf_hue == s.leaf_hue
        }),
{
}

} // verus!
