//! The flock's tunables.

use vstd::prelude::*;

use crate::oracle::{
    answer1, answer3, answered3, lemma_answer1, lemma_answer3, single_valued1, single_valued3,
};

verus! {

/// The tunables of the flock.
#[derive(Clone, Copy)]
pub struct SimSettings<V> {
    /// How many boids there are.
    pub count: V,
    /// The top speed of a boid, in pixels per second.
    pub speed: V,
    /// How a boid keeps away from others.
    pub separation: V,
    /// How a boid heads like others.
    pub alignment: V,
    /// How a boid keeps to the others.
    pub cohesion: V,
}

impl Default for SimSettings<i64> {
    /// The authored values, in thousandths.
    fn default() -> (s: SimSettings<i64>)
        ensures
            s == (SimSettings {
                count: 50_000i64,
                speed: 400_000i64,
                separation: 1800i64,
                alignment: 1000i64,
                cohesion: 1000i64,
            }),
    {
        SimSettings {
            count: 50_000,
            speed: 400_000,
            separation: 1800,
            alignment: 1000,
            cohesion: 1000,
        }
    }
}

impl<V: Copy> SimSettings<V> {
    /// The settings with every value put through `f`.
    pub open spec fn mapped<W, F: Fn(V) -> W>(self, f: F) -> SimSettings<W> {
        SimSettings {
            count: answer1(f, self.count),
            speed: answer1(f, self.speed),
            separation: answer1(f, self.separation),
            alignment: answer1(f, self.alignment),
            cohesion: answer1(f, self.cohesion),
        }
    }

    /// The settings with every value put through `f`.
    pub fn map<W, F: Fn(V) -> W>(&self, f: F) -> (s: SimSettings<W>)
        requires
            single_valued1(f),
            forall|v: V| f.requires((v,)),
        ensures
            s == self.mapped(f),
            f.ensures((self.count,), s.count),
            f.ensures((self.speed,), s.speed),
            f.ensures((self.separation,), s.separation),
            f.ensures((self.alignment,), s.alignment),
            f.ensures((self.cohesion,), s.cohesion),
    {
        let count: W = f(self.count);
        let speed: W = f(self.speed);
        let separation: W = f(self.separation);
        let alignment: W = f(self.alignment);
        let cohesion: W = f(self.cohesion);
        proof {
            lemma_answer1(f, self.count, count);
            lemma_answer1(f, self.speed, speed);
            lemma_answer1(f, self.separation, separation);
            lemma_answer1(f, self.alignment, alignment);
            lemma_answer1(f, self.cohesion, cohesion);
        }
        SimSettings {
            count,
            speed,
            separation,
            alignment,
            cohesion,
        }
    }
}

/// The sliders of the flock.
#[derive(Clone, Copy, Debug, PartialEq, Eq, Structural)]
pub enum Param {
    Count,
    Speed,
    Separation,
    Alignment,
    Cohesion,
}

impl Param {
    /// The sliders, in their order.
    pub fn all() -> (group: [Param; 5])
        ensures
            group@ == seq![
                Param::Count,
                Param::Speed,
                Param::Separation,
                Param::Alignment,
                Param::Cohesion,
            ],
    {
        [
            Param::Count,
            Param::Speed,
            Param::Separation,
            Param::Alignment,
            Param::Cohesion,
        ]
    }

    /// The slider's name.
    pub fn label(self) -> (name: &'static str)
        ensures
            name@ == (match self {
                Param::Count => "Boids"@,
                Param::Speed => "Speed"@,
                Param::Separation => "Separation"@,
                Param::Alignment => "Alignment"@,
                Param::Cohesion => "Cohesion"@,
            }),
    {
        match self {
            Param::Count => "Boids",
            Param::Speed => "Speed",
            Param::Separation => "Separation",
            Param::Alignment => "Alignment",
            Param::Cohesion => "Cohesion",
        }
    }

    /// The least and the greatest value, in thousandths.
    pub open spec fn bounds(self) -> (i64, i64) {
        match self {
            Param::Count => (10_000i64, 1_280_000_000i64),
            Param::Speed => (50_000i64, 1_500_000i64),
            Param::Separation => (0i64, 8000i64),
            Param::Alignment => (0i64, 6000i64),
            Param::Cohesion => (0i64, 6000i64),
        }
    }

    /// The least and the greatest value, in thousandths.
    pub fn range(self) -> (range: (i64, i64))
        ensures
            range == self.bounds(),
    {
        match self {
            Param::Count => (10_000, 1_280_000_000),
            Param::Speed => (50_000, 1_500_000),
            Param::Separation => (0, 8000),
            Param::Alignment => (0, 6000),
            Param::Cohesion => (0, 6000),
        }
    }

    /// The decimals that a value is shown with.
    pub fn decimals(self) -> (n: u32)
        ensures
            n == (match self {
                Param::Count => 0u32,
                Param::Speed => 0u32,
                Param::Separation => 2u32,
                Param::Alignment => 2u32,
                Param::Cohesion => 2u32,
            }),
    {
        match self {
            Param::Count => 0,
            Param::Speed => 0,
            Param::Separation => 2,
            Param::Alignment => 2,
            Param::Cohesion => 2,
        }
    }

    /// Whether the slider doubles its value over equal ways, so that the low
    /// end of a wide range stays usable.
    pub fn is_log(self) -> (log: bool)
        ensures
            log == (self == Param::Count),
    {
        self == Param::Count
    }

    /// The value that the slider shows.
    pub open spec fn field<V>(self, s: SimSettings<V>) -> V {
        match self {
            Param::Count => s.count,
            Param::Speed => s.speed,
            Param::Separation => s.separation,
            Param::Alignment => s.alignment,
            Param::Cohesion => s.cohesion,
        }
    }

    /// The settings with the slider's value replaced.
    pub open spec fn with<V>(self, s: SimSettings<V>, v: V) -> SimSettings<V> {
        match self {
            Param::Count => SimSettings { count: v, ..s },
            Param::Speed => SimSettings { speed: v, ..s },
            Param::Separation => SimSettings { separation: v, ..s },
            Param::Alignment => SimSettings { alignment: v, ..s },
            Param::Cohesion => SimSettings { cohesion: v, ..s },
        }
    }

    /// The value that the slider shows.
    pub fn get<V: Copy>(self, s: &SimSettings<V>) -> (v: V)
        ensures
            v == self.field(*s),
    {
        match self {
            Param::Count => s.count,
            Param::Speed => s.speed,
            Param::Separation => s.separation,
            Param::Alignment => s.alignment,
            Param::Cohesion => s.cohesion,
        }
    }

    /// Set the slider's value, brought into its range by `clamp`.
    pub fn set<V: Copy, C: Fn(V, i64, i64) -> V>(self, s: &mut SimSettings<V>, value: V, clamp: C)
        requires
            single_valued3(clamp),
            forall|v: V, lo: i64, hi: i64| clamp.requires((v, lo, hi)),
        ensures
            *final(s) == self.with(
                *old(s),
                answer3(clamp, value, self.bounds().0, self.bounds().1),
            ),
            answered3(clamp, value, self.bounds().0, self.bounds().1),
    {
        let (lo, hi) = self.range();
        let v: V = clamp(value, lo, hi);
        proof {
            lemma_answer3(clamp, value, lo, hi, v);
        }
        match self {
            Param::Count => {
                s.count = v;
            },
            Param::Speed => {
                s.speed = v;
            },
            Param::Separation => {
                s.separation = v;
            },
            Param::Alignment => {
                s.alignment = v;
            },
            Param::Cohesion => {
                s.cohesion = v;
            },
        }
    }
}

/// What was set reads back, and nothing else has changed.
pub proof fn law_set_changes_one_value<V>(param: Param, other: Param, s: SimSettings<V>, v: V)
    ensures
        param.field(param.with(s, v)) == v,
        other != param ==> other.field(param.with(s, v)) == other.field(s),
{
}

/// Every authored value lies in its slider's range.
pub proof fn law_authored_values_are_in_range(param: Param, s: SimSettings<i64>)
    requires
        call_ensures(SimSettings::<i64>::default, (), s),
    ensures
        param.bounds().0 <= param.field(s) <= param.bounds().1,
        param.bounds().0 < param.bounds().1,
{
}

/// Every slider reads and moves the value that it is named after.
pub proof fn law_sliders_name_their_values<V>(s: SimSettings<V>, v: V)
    ensures
        Param::Count.field(s) == s.count,
        Param::Count.with(s, v).count == v,
        Param::Speed.field(s) == s.speed,
        Param::Speed.with(s, v).speed == v,
        Param::Separation.field(s) == s.separation,
        Param::Separation.with(s, v).separation == v,
        Param::Alignment.field(s) == s.alignment,
        Param::Alignment.with(s, v).alignment == v,
        Param::Cohesion.field(s) == s.cohesion,
        Param::Cohesion.with(s, v).cohesion == v,
{
}

/// Settings are mapped value by value, and what is no number stays.
pub proof fn law_mapping_goes_value_by_value<V: Copy, W, F: Fn(V) -> W>(
    param: Param,
    s: SimSettings<V>,
    f: F,
)
    ensures
        param.field(s.mapped(f)) == answer1(f, param.field(s)),
{
}

} // verus!
