//! When the field is generated anew, and what a restart does.

use vstd::prelude::*;

use crate::flow::noise::SEED_PERIOD;
use crate::flow::particles::FlowParticles;
use crate::flow::settings::{FlowMode, FlowPalette, FlowParam, FlowSettings};
use crate::oracle::{answer1, answered1, lemma_answer1, single_valued1};
use crate::pattern::{equal, is_number, same_number};
use crate::random::between;
use crate::shell::{AppState, SECOND};

verus! {

/// The most often that the changing field is built, per second.
pub const EVOLVE_HZ: u64 = 30;

/// The most often that the field is built while a button is held, per second.
pub const REBUILD_HZ: u64 = 15;

/// The sliders that count in whole numbers, rounded: the cell size as the bit
/// pattern of the rounded value, the others as numbers.
#[derive(Clone, Copy, Debug, PartialEq, Eq, Structural)]
pub struct RoundedSliders {
    pub scale: u32,
    pub octaves: u32,
    pub detail: usize,
    pub length: usize,
}

/// Every value that the field and its picture are built from. Measures are bit
/// patterns. The particles' values are not among them: particles ride on the
/// field as it is.
#[derive(Clone, Copy, Debug, PartialEq, Eq, Structural)]
pub struct BuildSig {
    pub seed: u32,
    pub scale: u32,
    pub noise_scale: u32,
    pub octaves: u32,
    pub roughness: u32,
    pub warp: u32,
    pub swirl: u32,
    pub mode: FlowMode,
    pub palette: FlowPalette,
    pub detail: usize,
    pub length: usize,
    pub line_width: u32,
    pub opacity: u32,
    pub arrowheads: bool,
    pub background: bool,
    pub width: u32,
    pub height: u32,
    pub z: u32,
}

impl BuildSig {
    /// What a window of the given size is built from, with the field at `z`.
    pub open spec fn of_settings(
        s: FlowSettings<u32>,
        rounded: RoundedSliders,
        width: u32,
        height: u32,
        z: u32,
    ) -> BuildSig {
        BuildSig {
            seed: s.seed,
            scale: rounded.scale,
            noise_scale: s.noise_scale,
            octaves: rounded.octaves,
            roughness: s.roughness,
            warp: s.warp,
            swirl: s.swirl,
            mode: s.mode,
            palette: s.palette,
            detail: rounded.detail,
            length: rounded.length,
            line_width: s.line_width,
            opacity: s.opacity,
            arrowheads: s.arrowheads,
            background: s.background,
            width,
            height,
            z,
        }
    }

    /// What a window of the given size is built from, with the field at `z`.
    pub fn of(
        s: &FlowSettings<u32>,
        rounded: RoundedSliders,
        width: u32,
        height: u32,
        z: u32,
    ) -> (sig: BuildSig)
        ensures
            sig == BuildSig::of_settings(*s, rounded, width, height, z),
    {
        BuildSig {
            seed: s.seed,
            scale: rounded.scale,
            noise_scale: s.noise_scale,
            octaves: rounded.octaves,
            roughness: s.roughness,
            warp: s.warp,
            swirl: s.swirl,
            mode: s.mode,
            palette: s.palette,
            detail: rounded.detail,
            length: rounded.length,
            line_width: s.line_width,
            opacity: s.opacity,
            arrowheads: s.arrowheads,
            background: s.background,
            width,
            height,
            z,
        }
    }
}

impl BuildSig {
    /// All measures are numbers.
    pub open spec fn is_measured(self) -> bool {
        &&& is_number(self.seed)
        &&& is_number(self.scale)
        &&& is_number(self.noise_scale)
        &&& is_number(self.roughness)
        &&& is_number(self.warp)
        &&& is_number(self.swirl)
        &&& is_number(self.line_width)
        &&& is_number(self.opacity)
        &&& is_number(self.width)
        &&& is_number(self.height)
        &&& is_number(self.z)
    }

    /// Both ask for the same. Measures are compared as numbers: what is none
    /// differs from itself.
    pub open spec fn same(self, other: BuildSig) -> bool {
        &&& same_number(self.seed, other.seed)
        &&& same_number(self.scale, other.scale)
        &&& same_number(self.noise_scale, other.noise_scale)
        &&& self.octaves == other.octaves
        &&& same_number(self.roughness, other.roughness)
        &&& same_number(self.warp, other.warp)
        &&& same_number(self.swirl, other.swirl)
        &&& self.mode == other.mode
        &&& self.palette == other.palette
        &&& self.detail == other.detail
        &&& self.length == other.length
        &&& same_number(self.line_width, other.line_width)
        &&& same_number(self.opacity, other.opacity)
        &&& self.arrowheads == other.arrowheads
        &&& self.background == other.background
        &&& same_number(self.width, other.width)
        &&& same_number(self.height, other.height)
        &&& same_number(self.z, other.z)
    }

    /// Whether both ask for the same.
    pub fn is_same(&self, other: &BuildSig) -> (same: bool)
        ensures
            same == self.same(*other),
    {
        equal(self.seed, other.seed)
            && equal(self.scale, other.scale)
            && equal(self.noise_scale, other.noise_scale)
            && self.octaves == other.octaves
            && equal(self.roughness, other.roughness)
            && equal(self.warp, other.warp)
            && equal(self.swirl, other.swirl)
            && self.mode == other.mode
            && self.palette == other.palette
            && self.detail == other.detail
            && self.length == other.length
            && equal(self.line_width, other.line_width)
            && equal(self.opacity, other.opacity)
            && self.arrowheads == other.arrowheads
            && self.background == other.background
            && equal(self.width, other.width)
            && equal(self.height, other.height)
            && equal(self.z, other.z)
    }
}

/// The slider's own value is one that the field or its picture is built from.
pub open spec fn builds(param: FlowParam) -> bool {
    match param {
        FlowParam::Seed | FlowParam::NoiseScale | FlowParam::Roughness | FlowParam::Warp
        | FlowParam::Swirl | FlowParam::LineWidth | FlowParam::Opacity => true,
        _ => false,
    }
}

/// Moving a slider that is built from asks for a new build, however little it
/// moves. Moving one of the particles does not. The sliders that count in whole
/// numbers ask for one when their number changes.
pub proof fn law_builds_track_their_sliders(
    s: FlowSettings<u32>,
    param: FlowParam,
    value: u32,
    rounded: RoundedSliders,
    other: RoundedSliders,
    width: u32,
    height: u32,
    z: u32,
)
    requires
        BuildSig::of_settings(s, rounded, width, height, z).is_measured(),
    ensures
        !BuildSig::of_settings(param.with(s, value), rounded, width, height, z).same(
            BuildSig::of_settings(s, rounded, width, height, z),
        ) <==> builds(param) && !same_number(value, param.field(s)),
        !BuildSig::of_settings(s, other, width, height, z).same(
            BuildSig::of_settings(s, rounded, width, height, z),
        ) <==> !(same_number(other.scale, rounded.scale) && other.octaves == rounded.octaves
            && other.detail == rounded.detail && other.length == rounded.length),
{
}

/// The window's size and the place along the evolve axis ask for a new build.
pub proof fn law_builds_track_window_and_evolution(
    s: FlowSettings<u32>,
    rounded: RoundedSliders,
    a: (u32, u32, u32),
    b: (u32, u32, u32),
)
    requires
        BuildSig::of_settings(s, rounded, a.0, a.1, a.2).is_measured(),
    ensures
        BuildSig::of_settings(s, rounded, a.0, a.1, a.2).same(
            BuildSig::of_settings(s, rounded, b.0, b.1, b.2),
        ) <==> same_number(a.0, b.0) && same_number(a.1, b.1) && same_number(a.2, b.2),
{
}

/// What is to be built.
#[derive(Clone, Copy, Debug, PartialEq, Eq, Structural)]
pub enum FieldWork {
    /// Everything is as it was built.
    Keep,
    /// Generate the field and drop the lines.
    Field(BuildSig),
    /// Generate the field and trace the lines through it.
    FieldAndLines(BuildSig),
}

/// What one frame brings.
#[derive(Clone, Copy, Debug, PartialEq, Eq, Structural)]
pub struct FlowFrame {
    pub state: AppState,
    /// Nanoseconds since the start.
    pub now: u64,
    /// The window's size, as bit patterns.
    pub width: u32,
    pub height: u32,
    /// Whether the evolve slider is above zero.
    pub evolving: bool,
    /// Whether the left button is held.
    pub held: bool,
}

/// What has been built, and when.
#[derive(Clone, Copy, Debug, PartialEq, Eq, Structural)]
pub struct FlowState {
    pub applied: Option<BuildSig>,
    /// The place on the evolve axis that is built next, as a bit pattern.
    pub z: u32,
    /// The place that the evolve axis has reached, as a bit pattern.
    pub z_accum: u32,
    /// When the last build was, in nanoseconds.
    pub last_build: Option<u64>,
    /// Moves on with every build, so that the renderer notices.
    pub version: u64,
}

/// At least a `hz`-th of a second has passed since the last build.
pub open spec fn rested(last: Option<u64>, now: u64, hz: u64) -> bool {
    match last {
        Some(then) => (now - then) * hz >= SECOND,
        None => true,
    }
}

/// At least a `hz`-th of a second has passed since the last build.
fn is_rested(last: Option<u64>, now: u64, hz: u64) -> (r: bool)
    requires
        1 <= hz <= 1000,
    ensures
        r == rested(last, now, hz),
{
    match last {
        Some(then) => {
            if now < then {
                assert((now - then) * hz < 0) by (nonlinear_arith)
                    requires
                        now < then,
                        hz >= 1,
                ;
                return false;
            }
            let passed: u64 = now - then;
            if passed >= SECOND {
                assert(passed * hz >= SECOND) by (nonlinear_arith)
                    requires
                        passed >= SECOND,
                        hz >= 1,
                ;
                true
            } else {
                assert(passed * hz <= 1_000_000_000_000) by (nonlinear_arith)
                    requires
                        passed < 1_000_000_000,
                        1 <= hz <= 1000,
                ;
                passed * hz >= SECOND
            }
        },
        None => true,
    }
}

impl FlowState {
    /// Nothing was built yet.
    pub fn new() -> (state: FlowState)
        ensures
            state == (FlowState { applied: None, z: 0, z_accum: 0, last_build: None, version: 0 }),
    {
        FlowState { applied: None, z: 0, z_accum: 0, last_build: None, version: 0 }
    }

    /// The evolve axis runs.
    pub open spec fn runs(frame: FlowFrame) -> bool {
        frame.evolving && frame.state == AppState::Playing
    }

    /// The place on the evolve axis that this frame asks for.
    pub open spec fn wanted_z(self, frame: FlowFrame, reached: u32) -> u32 {
        if Self::runs(frame) && rested(self.last_build, frame.now, EVOLVE_HZ) {
            reached
        } else {
            self.z
        }
    }

    /// What this frame asks to be built.
    pub open spec fn wanted(
        self,
        s: FlowSettings<u32>,
        rounded: RoundedSliders,
        frame: FlowFrame,
        reached: u32,
    ) -> BuildSig {
        BuildSig::of_settings(
            s,
            rounded,
            frame.width,
            frame.height,
            self.wanted_z(frame, reached),
        )
    }

    /// What is asked for was built.
    pub open spec fn has_built(self, sig: BuildSig) -> bool {
        self.applied matches Some(own) && own.same(sig)
    }

    /// A frame asks for something else than was built, and may have it: while a
    /// button is held, only some time after the last build.
    pub open spec fn due(self, sig: BuildSig, frame: FlowFrame) -> bool {
        &&& !self.has_built(sig)
        &&& !frame.held || rested(self.last_build, frame.now, REBUILD_HZ)
    }

    /// Run the evolve axis on, and tell what is to be built. `accrue` moves a
    /// place on the axis on by this frame's time.
    pub fn update_field<A: Fn(u32) -> u32>(
        &mut self,
        s: &FlowSettings<u32>,
        rounded: RoundedSliders,
        frame: FlowFrame,
        accrue: A,
    ) -> (work: FieldWork)
        requires
            single_valued1(accrue),
            forall|z: u32| accrue.requires((z,)),
        ensures
            ({
                let reached = if Self::runs(frame) {
                    answer1(accrue, old(self).z_accum)
                } else {
                    old(self).z_accum
                };
                let sig = old(self).wanted(*s, rounded, frame, reached);
                &&& Self::runs(frame) ==> answered1(accrue, old(self).z_accum)
                &&& final(self).z_accum == reached
                &&& final(self).z == sig.z
                &&& work == if !old(self).due(sig, frame) {
                    FieldWork::Keep
                } else if sig.mode == FlowMode::Streamlines {
                    FieldWork::FieldAndLines(sig)
                } else {
                    FieldWork::Field(sig)
                }
                &&& old(self).due(sig, frame) ==> {
                    &&& final(self).applied == Some(sig)
                    &&& final(self).last_build == Some(frame.now)
                    &&& final(self).version == old(self).version.wrapping_add(1)
                }
                &&& !old(self).due(sig, frame) ==> {
                    &&& final(self).applied == old(self).applied
                    &&& final(self).last_build == old(self).last_build
                    &&& final(self).version == old(self).version
                }
            }),
    {
        if frame.evolving && frame.state == AppState::Playing {
            let reached: u32 = accrue(self.z_accum);
            proof {
                lemma_answer1(accrue, self.z_accum, reached);
            }
            self.z_accum = reached;
            if is_rested(self.last_build, frame.now, EVOLVE_HZ) {
                self.z = reached;
            }
        }
        let sig: BuildSig = BuildSig::of(s, rounded, frame.width, frame.height, self.z);
        if let Some(own) = self.applied {
            if own.is_same(&sig) {
                return FieldWork::Keep;
            }
        }
        if frame.held && !is_rested(self.last_build, frame.now, REBUILD_HZ) {
            return FieldWork::Keep;
        }
        self.applied = Some(sig);
        self.last_build = Some(frame.now);
        self.version = self.version.wrapping_add(1);
        if sig.mode == FlowMode::Streamlines {
            FieldWork::FieldAndLines(sig)
        } else {
            FieldWork::Field(sig)
        }
    }

    /// Start over with the field of a seed and without particles: `whole` turns
    /// the seed into a setting.
    pub fn restart_with<V, P: Copy, L: Copy, W: Fn(u32) -> V>(
        &mut self,
        settings: &mut FlowSettings<V>,
        particles: &mut FlowParticles<P, L>,
        seed: u32,
        whole: &W,
    )
        requires
            single_valued1(*whole),
            forall|n: u32| whole.requires((n,)),
        ensures
            *final(self) == (FlowState { z: 0, z_accum: 0, ..*old(self) }),
            is_seeded(*final(settings), *old(settings), *whole, seed),
            final(particles).wf(),
            final(particles).pos.len() == 0,
            final(particles).rng == old(particles).rng,
            final(particles).clock.acc == 0,
    {
        let value: V = whole(seed);
        proof {
            lemma_answer1(*whole, seed, value);
        }
        settings.seed = value;
        self.z = 0;
        self.z_accum = 0;
        particles.clear();
    }

    /// Start over with the field of a random seed, and without particles, where
    /// a restart was asked for: by the UI, or by the key while playing and not
    /// typing. The request is then answered.
    pub fn handle_restart<V, P: Copy, L: Copy, W: Fn(u32) -> V>(
        &mut self,
        state: AppState,
        key: bool,
        typing: bool,
        request: &mut bool,
        settings: &mut FlowSettings<V>,
        particles: &mut FlowParticles<P, L>,
        whole: &W,
    )
        requires
            single_valued1(*whole),
            forall|n: u32| whole.requires((n,)),
        ensures
            !*final(request),
            !restart_wanted(*old(request), state, key, typing) ==> {
                &&& *final(self) == *old(self)
                &&& *final(settings) == *old(settings)
                &&& *final(particles) == *old(particles)
            },
            restart_wanted(*old(request), state, key, typing) ==> {
                &&& *final(self) == (FlowState { z: 0, z_accum: 0, ..*old(self) })
                &&& reseeded(*final(settings), *old(settings), *whole)
                &&& final(particles).wf()
                &&& final(particles).pos.len() == 0
                &&& final(particles).rng == old(particles).rng
                &&& final(particles).clock.acc == 0
            },
    {
        let key_restart: bool = state == AppState::Playing && key && !typing;
        if *request || key_restart {
            *request = false;
            let seed: u32 = random_seed();
            self.restart_with(settings, particles, seed, whole);
            assert(is_seeded(*settings, *old(settings), *whole, seed));
        }
    }

    /// Forget what was built, so that it is built anew.
    pub fn forget(&mut self)
        ensures
            *final(self) == (FlowState { applied: None, ..*old(self) }),
    {
        self.applied = None;
    }
}

/// A restart was asked for: by the UI, or by the key while playing and not
/// typing.
pub open spec fn restart_wanted(requested: bool, state: AppState, key: bool, typing: bool) -> bool {
    requested || (state == AppState::Playing && key && !typing)
}

/// The settings are as they were, but for the field of the given seed.
pub open spec fn is_seeded<V, W: Fn(u32) -> V>(
    now: FlowSettings<V>,
    was: FlowSettings<V>,
    whole: W,
    seed: u32,
) -> bool {
    &&& whole.ensures((seed,), now.seed)
    &&& now == (FlowSettings { seed: now.seed, ..was })
}

/// The settings are as they were, but for the field of some seed below the
/// period.
pub open spec fn reseeded<V, W: Fn(u32) -> V>(
    now: FlowSettings<V>,
    was: FlowSettings<V>,
    whole: W,
) -> bool {
    exists|seed: u32| seed < SEED_PERIOD && #[trigger] is_seeded(now, was, whole, seed)
}

/// A random seed. Seeds from the period on repeat fields, so none is drawn.
pub fn random_seed() -> (seed: u32)
    ensures
        seed < SEED_PERIOD,
{
    between(0, SEED_PERIOD as i64 - 1) as u32
}

/// Take the field of a random seed and keep everything else: `whole` turns the
/// seed into a setting.
pub fn new_field<V, W: Fn(u32) -> V>(settings: &mut FlowSettings<V>, whole: &W)
    requires
        single_valued1(*whole),
        forall|n: u32| whole.requires((n,)),
    ensures
        reseeded(*final(settings), *old(settings), *whole),
{
    let seed: u32 = random_seed();
    let value: V = whole(seed);
    proof {
        lemma_answer1(*whole, seed, value);
    }
    settings.seed = value;
    assert(is_seeded(*settings, *old(settings), *whole, seed));
}

/// What was built stays until something asks for another build: a frame that
/// asks for the same numbers again builds nothing.
pub proof fn law_builds_settle(state: FlowState, sig: BuildSig, frame: FlowFrame)
    requires
        state.applied == Some(sig),
        sig.is_measured(),
    ensures
        !state.due(sig, frame),
{
}

/// Letting go of the button builds exactly what is asked for.
pub proof fn law_release_builds_exactly(state: FlowState, sig: BuildSig, frame: FlowFrame)
    requires
        !frame.held,
    ensures
        state.due(sig, frame) || state.has_built(sig),
{
}

/// While a button is held, builds keep their distance.
pub proof fn law_held_builds_are_spaced(
    state: FlowState,
    first: u64,
    sig: BuildSig,
    frame: FlowFrame,
)
    requires
        state.last_build == Some(first),
        frame.held,
        state.due(sig, frame),
    ensures
        (frame.now - first) * REBUILD_HZ >= SECOND,
{
}

/// Only play moves the field along the evolve axis, and only some time after
/// the last build.
pub proof fn law_evolution_is_spaced(state: FlowState, frame: FlowFrame, reached: u32)
    ensures
        state.wanted_z(frame, reached) != state.z ==> {
            &&& frame.state == AppState::Playing
            &&& frame.evolving
            &&& rested(state.last_build, frame.now, EVOLVE_HZ)
        },
{
}

/// Particles are shown: on their own view, or on top of another.
pub open spec fn particles_shown(animate: bool, mode: FlowMode) -> bool {
    animate || mode == FlowMode::Particles
}

/// How many particles are to ride on the field this frame, at least one; none
/// move where they are not shown or there is no field.
pub fn particle_work(animate: bool, mode: FlowMode, cols: usize, wanted: usize) -> (n: Option<
    usize,
>)
    ensures
        n == (if particles_shown(animate, mode) && cols > 0 {
            Some(crate::arith::most(wanted as int, 1) as usize)
        } else {
            None::<usize>
        }),
{
    if !(animate || mode == FlowMode::Particles) || cols == 0 {
        return None;
    }
    if wanted < 1 {
        Some(1)
    } else {
        Some(wanted)
    }
}

/// The evolution is taken up whenever it may be: while the program plays and the
/// field evolves, once a thirtieth of a second has gone by since the last build.
pub proof fn law_evolution_is_taken_up(state: FlowState, frame: FlowFrame, reached: u32)
    requires
        frame.state == AppState::Playing,
        frame.evolving,
        state.last_build matches Some(then) ==> (frame.now - then) * 30 >= SECOND,
    ensures
        state.wanted_z(frame, reached) == reached,
{
}

/// A held slider builds again as soon as a fifteenth of a second has gone by since
/// the last build, and not before.
pub proof fn law_held_sliders_build_at_their_rate(
    state: FlowState,
    sig: BuildSig,
    frame: FlowFrame,
    then: u64,
)
    requires
        frame.held,
        state.last_build == Some(then),
        !state.has_built(sig),
    ensures
        state.due(sig, frame) <==> (frame.now - then) * 15 >= SECOND,
{
}

/// A restart comes from a request in any state, or from its key while the program
/// plays and nothing is being typed.
pub proof fn law_restarts_come_from_request_or_key(state: AppState)
    ensures
        restart_wanted(true, state, false, true),
        restart_wanted(false, state, true, false) <==> state == AppState::Playing,
        !restart_wanted(false, state, true, true),
        !restart_wanted(false, state, false, false),
{
}

/// The sliders of the field and of its strokes make a new build; how fast the field
/// changes, and what only the particles go by, does not.
pub proof fn law_sliders_that_build()
    ensures
        builds(FlowParam::Seed),
        builds(FlowParam::NoiseScale),
        builds(FlowParam::Roughness),
        builds(FlowParam::Warp),
        builds(FlowParam::Swirl),
        builds(FlowParam::LineWidth),
        builds(FlowParam::Opacity),
        !builds(FlowParam::Evolve),
        !builds(FlowParam::ParticleCount),
        !builds(FlowParam::ParticleSpeed),
        !builds(FlowParam::TrailFade),
{
}

/// What the view shows makes a new build: its mode, its colours, its arrow heads
/// and its ground. That particles ride on it does not.
pub proof fn law_views_build_what_they_show(
    s: FlowSettings<u32>,
    t: FlowSettings<u32>,
    rounded: RoundedSliders,
    width: u32,
    height: u32,
    z: u32,
)
    requires
        BuildSig::of_settings(s, rounded, width, height, z).is_measured(),
        t == (FlowSettings {
            mode: t.mode,
            palette: t.palette,
            arrowheads: t.arrowheads,
            background: t.background,
            animate: t.animate,
            ..s
        }),
    ensures
        BuildSig::of_settings(s, rounded, width, height, z).same(
            BuildSig::of_settings(t, rounded, width, height, z),
        ) <==> s.mode == t.mode && s.palette == t.palette && s.arrowheads == t.arrowheads
            && s.background == t.background,
{
}

/// Another field is the same in all but its seed, which is a whole number below the
/// period after which fields repeat.
pub proof fn law_new_fields_keep_their_settings<V, W: Fn(u32) -> V>(
    now: FlowSettings<V>,
    was: FlowSettings<V>,
    whole: W,
    param: FlowParam,
)
    requires
        reseeded(now, was, whole),
    ensures
        param != FlowParam::Seed ==> param.field(now) == param.field(was),
        now.mode == was.mode,
        now.palette == was.palette,
        now.arrowheads == was.arrowheads,
        now.background == was.background,
        now.animate == was.animate,
        exists|seed: u32| seed < 256_000 && #[trigger] whole.ensures((seed,), now.seed),
{
    let seed = choose|seed: u32| seed < SEED_PERIOD && #[trigger] is_seeded(now, was, whole, seed);
    assert(whole.ensures((seed,), now.seed));
}

/// What is wanted is built from the settings, for the window that there is, at the
/// place that the evolution has reached or stays at.
pub proof fn law_wanted_builds_follow_the_frame(
    state: FlowState,
    s: FlowSettings<u32>,
    rounded: RoundedSliders,
    frame: FlowFrame,
    reached: u32,
)
    ensures
        ({
            let sig = state.wanted(s, rounded, frame, reached);
            &&& sig == BuildSig::of_settings(s, rounded, frame.width, frame.height, sig.z)
            &&& sig.z == reached || sig.z == state.z
            &&& sig.width == frame.width && sig.height == frame.height
        }),
{
}

} // verus!
