//! What the renderer is handed: the still picture, and the particles' trails.

use vstd::prelude::*;

use crate::fish::paint::Row;
use crate::flow::field::FlowField;
use crate::flow::palette::{law_packed_colors_unpack, pack_color, packed_color};
use crate::flow::particles::{FlowParticles, TRAIL_CAP};
use crate::flow::settings::{FlowMode, FlowRow, FlowSettings};
use crate::flow::state::{particles_shown, FlowState};
use crate::flow::strokes::{
    are_arrows, arrow_size, arrows_made, corners_made, emit_arrows, emit_gradient, emit_strokes,
    gradient_indices, gradient_vertices, lemma_point_count_rises, point_count, strokes_drawn,
    strokes_made, Ink, RibbonPoint, Stroke,
};
use crate::layout::{pair_layout, AttributeFormat, BufferLayout, StepMode};
use crate::mesh::Mesh;
use crate::oracle::{
    answer1, answered1, lemma_answer1, single_valued1, single_valued2, single_valued3,
};
use crate::shell::ExperimentId;

verus! {

/// The vertices of a trail's segment: one quad.
pub const SEG_VERTS: u32 = 6;

/// The vertices of a particle's dot: one quad.
pub const DOT_VERTS: u32 = 6;

/// How many samples of a trail are drawn. `fade` is the number of samples after
/// which a trail has faded out, if it fades at all; the sample that fades out
/// is still drawn.
pub fn trail_max_points(fade: Option<usize>) -> (n: u32)
    ensures
        n == (match fade {
            Some(k) => crate::arith::least(k + 1, TRAIL_CAP as int),
            None => TRAIL_CAP as int,
        }),
{
    match fade {
        Some(k) => if k < TRAIL_CAP {
            k as u32 + 1
        } else {
            TRAIL_CAP as u32
        },
        None => TRAIL_CAP as u32,
    }
}

/// The vertices of one particle: a quad for each segment between the samples
/// drawn, at least one, and its dot.
pub open spec fn particle_vertices(max_points: int) -> int {
    (crate::arith::most(max_points, 2) - 1) * SEG_VERTS + DOT_VERTS
}

/// The vertices of one particle.
pub fn trail_verts_per_particle(max_points: u32) -> (n: u32)
    requires
        particle_vertices(max_points as int) <= u32::MAX,
    ensures
        n == particle_vertices(max_points as int),
{
    let points: u32 = if max_points < 2 {
        2
    } else {
        max_points
    };
    (points - 1) * SEG_VERTS + DOT_VERTS
}

/// A particle has a quad for each sample drawn.
pub proof fn law_particles_have_a_quad_per_sample(max_points: int)
    ensures
        particle_vertices(max_points) == crate::arith::most(max_points, 2) * 6,
{
}

/// The strokes of a view.
#[derive(Clone, Copy, Debug, PartialEq, Eq, Structural)]
pub enum ViewStrokes {
    Nothing,
    Lines,
    Arrows,
}

/// The layers of a view: the brightness of its gradient in hundredths, if it has
/// one, and the strokes on top.
#[derive(Clone, Copy, Debug, PartialEq, Eq, Structural)]
pub struct StaticPlan {
    pub gradient: Option<u32>,
    pub strokes: ViewStrokes,
}

/// The layers of a view. The gradient has its own view; behind the others it is
/// dimmed, and most behind strokes.
pub open spec fn planned(mode: FlowMode, background: bool) -> StaticPlan {
    StaticPlan {
        gradient: match mode {
            FlowMode::Gradient => Some(100u32),
            FlowMode::Particles => if background {
                Some(60u32)
            } else {
                None
            },
            FlowMode::Streamlines | FlowMode::Arrows => if background {
                Some(45u32)
            } else {
                None
            },
        },
        strokes: match mode {
            FlowMode::Streamlines => ViewStrokes::Lines,
            FlowMode::Arrows => ViewStrokes::Arrows,
            FlowMode::Gradient | FlowMode::Particles => ViewStrokes::Nothing,
        },
    }
}

/// How many vertices a view's still picture needs at most, over a field of so
/// many columns and rows and with lines of so many points.
pub open spec fn picture_bound(
    plan: StaticPlan,
    cols: int,
    rows: int,
    line_points: int,
    arrowheads: bool,
) -> int {
    let under = if plan.gradient is Some {
        (rows + 1) * (cols + 1)
    } else {
        0
    };
    let over = match plan.strokes {
        ViewStrokes::Nothing => 0,
        ViewStrokes::Lines => 4 * line_points,
        ViewStrokes::Arrows => 8 * (arrow_size(arrowheads) * (cols * rows)),
    };
    under + over
}

/// The layers of a view.
pub fn static_plan(mode: FlowMode, background: bool) -> (plan: StaticPlan)
    ensures
        plan == planned(mode, background),
{
    let gradient: Option<u32> = match mode {
        FlowMode::Gradient => Some(100),
        FlowMode::Particles => if background {
            Some(60)
        } else {
            None
        },
        FlowMode::Streamlines | FlowMode::Arrows => if background {
            Some(45)
        } else {
            None
        },
    };
    let strokes: ViewStrokes = match mode {
        FlowMode::Streamlines => ViewStrokes::Lines,
        FlowMode::Arrows => ViewStrokes::Arrows,
        FlowMode::Gradient | FlowMode::Particles => ViewStrokes::Nothing,
    };
    StaticPlan { gradient, strokes }
}

/// What the renderer needs of one particle: where it is, how its ring is to be
/// read, and its packed colour.
#[derive(Clone, Copy, Debug, PartialEq, Eq, Structural)]
pub struct TrailMeta<P> {
    pub pos: P,
    pub head: u32,
    pub len: u32,
    pub color: u32,
}

/// What is handed to the renderer.
pub struct FlowDrawData<V, P> {
    /// The still picture.
    pub mesh: Mesh<V>,
    /// The build that the picture shows; none before the first.
    pub static_version: Option<u64>,
    /// The particles' records.
    pub meta: Vec<TrailMeta<P>>,
    /// How many samples of a trail are drawn.
    pub max_points: u32,
}

/// The vertices and indices of a picture: its gradient, and strokes behind it.
pub open spec fn picture<
    D,
    P,
    N,
    V,
    C: Fn(u32, usize, usize) -> V,
    H: Fn(P, P) -> Option<N>,
    R: Fn(Ink<D>, RibbonPoint<P, N>) -> Row<V>,
>(
    gradient: Option<u32>,
    cols: int,
    rows: int,
    strokes: Seq<Stroke<P, Ink<D>>>,
    corner: C,
    first: N,
    normal: H,
    row: R,
) -> (Seq<V>, Seq<u32>) {
    let (vertices, indices) = match gradient {
        Some(brightness) => (
            gradient_vertices(brightness, cols, rows, corner),
            gradient_indices(0, cols, rows),
        ),
        None => (Seq::empty(), Seq::empty()),
    };
    let (more, laid) = strokes_drawn(
        strokes,
        first,
        normal,
        row,
        vertices.len() as int,
        strokes.len() as int,
    );
    (vertices + more, indices + laid)
}

proof fn lemma_pair_points<P, T>(strokes: Seq<Stroke<P, T>>, k: int)
    requires
        0 <= k <= strokes.len(),
        forall|q: int| 0 <= q < strokes.len() ==> (#[trigger] strokes[q]).points.len() == 2,
    ensures
        point_count(strokes, k) == 2 * k,
    decreases k,
{
    if k > 0 {
        lemma_pair_points(strokes, k - 1);
    }
}

impl<V, P: Copy> FlowDrawData<V, P> {
    /// Nothing to draw yet.
    pub fn new() -> (data: Self)
        ensures
            data.mesh.wf(),
            data.mesh.vertices.len() == 0,
            data.mesh.indices.len() == 0,
            data.static_version is None,
            data.meta.len() == 0,
            data.max_points == 0,
    {
        FlowDrawData {
            mesh: Mesh::new(),
            static_version: None,
            meta: Vec::new(),
            max_points: 0,
        }
    }

    /// There is a build that the picture does not show.
    pub open spec fn stale(&self, state: FlowState, cols: int) -> bool {
        &&& self.static_version != Some(state.version)
        &&& state.applied is Some
        &&& cols > 0
    }

    /// The still picture is that of a view.
    pub open spec fn shows<
        D,
        N,
        C: Fn(u32, usize, usize) -> V,
        H: Fn(P, P) -> Option<N>,
        R: Fn(Ink<D>, RibbonPoint<P, N>) -> Row<V>,
    >(
        &self,
        gradient: Option<u32>,
        field: FlowField<D>,
        strokes: Seq<Stroke<P, Ink<D>>>,
        corner: C,
        first: N,
        normal: H,
        row: R,
    ) -> bool {
        let drawn = picture(
            gradient,
            field.cols as int,
            field.rows as int,
            strokes,
            corner,
            first,
            normal,
            row,
        );
        &&& self.mesh.vertices@ == drawn.0
        &&& self.mesh.indices@ == drawn.1
        &&& gradient matches Some(brightness) ==> corners_made(
            brightness,
            field.cols as int,
            field.rows as int,
            corner,
        )
        &&& strokes_made(strokes, first, normal, row, strokes.len() as int)
    }

    /// Draw the still picture anew where the field was built since. It is drawn
    /// from what was built, which the settings may be ahead of.
    pub fn emit_static<
        D: Copy,
        N: Copy,
        C: Fn(u32, usize, usize) -> V,
        H: Fn(P, P) -> Option<N>,
        R: Fn(Ink<D>, RibbonPoint<P, N>) -> Row<V>,
        S: Fn(D, usize, usize) -> (P, P),
        B: Fn(D, usize, usize) -> (P, P),
    >(
        &mut self,
        state: &FlowState,
        field: &FlowField<D>,
        lines: &Vec<Stroke<P, Ink<D>>>,
        corner: &C,
        first: N,
        normal: &H,
        row: &R,
        shaft: &S,
        barbs: &B,
    )
        requires
            old(self).mesh.wf(),
            field.wf(),
            state.applied matches Some(sig) ==> picture_bound(
                planned(sig.mode, sig.background),
                field.cols as int,
                field.rows as int,
                point_count(lines@, lines.len() as int),
                sig.arrowheads,
            ) <= u32::MAX,
            single_valued3(*corner),
            single_valued2(*normal),
            single_valued2(*row),
            single_valued3(*shaft),
            single_valued3(*barbs),
            forall|b: u32, r: usize, c: usize| corner.requires((b, r, c)),
            forall|a: P, b: P| normal.requires((a, b)),
            forall|t: Ink<D>, p: RibbonPoint<P, N>| row.requires((t, p)),
            forall|d: D, r: usize, c: usize| shaft.requires((d, r, c)),
            forall|d: D, r: usize, c: usize| barbs.requires((d, r, c)),
        ensures
            final(self).mesh.wf(),
            final(self).meta == old(self).meta,
            final(self).max_points == old(self).max_points,
            !old(self).stale(*state, field.cols as int) ==> *final(self) == *old(self),
            old(self).stale(*state, field.cols as int) ==> {
                let sig = state.applied->0;
                let plan = planned(sig.mode, sig.background);
                &&& final(self).static_version == Some(state.version)
                &&& match plan.strokes {
                    ViewStrokes::Nothing => final(self).shows(
                        plan.gradient,
                        *field,
                        Seq::<Stroke<P, Ink<D>>>::empty(),
                        *corner,
                        first,
                        *normal,
                        *row,
                    ),
                    ViewStrokes::Lines => final(self).shows(
                        plan.gradient,
                        *field,
                        lines@,
                        *corner,
                        first,
                        *normal,
                        *row,
                    ),
                    ViewStrokes::Arrows => exists|strokes: Seq<Stroke<P, Ink<D>>>|
                        are_arrows(
                            strokes,
                            field.cells@,
                            field.cols as int,
                            sig.arrowheads,
                            *shaft,
                            *barbs,
                        ) && arrows_made(
                            field.cells@,
                            field.cols as int,
                            sig.arrowheads,
                            *shaft,
                            *barbs,
                        ) && #[trigger] final(self).shows(
                            plan.gradient,
                            *field,
                            strokes,
                            *corner,
                            first,
                            *normal,
                            *row,
                        ),
                }
            },
    {
        if self.static_version == Some(state.version) {
            return;
        }
        let sig = match state.applied {
            Some(sig) => sig,
            None => {
                return;
            },
        };
        if field.cols == 0 {
            return;
        }
        let plan: StaticPlan = static_plan(sig.mode, sig.background);
        self.mesh.clear();
        proof {
            lemma_point_count_rises(lines@, 0, lines.len() as int);
        }
        if let Some(brightness) = plan.gradient {
            emit_gradient(&mut self.mesh, brightness, field.cols, field.rows, corner);
        }
        let ghost under = (self.mesh.vertices@, self.mesh.indices@);
        let ghost none = Seq::<Stroke<P, Ink<D>>>::empty();
        proof {
            let drawn = match plan.gradient {
                Some(brightness) => (
                    gradient_vertices(brightness, field.cols as int, field.rows as int, *corner),
                    gradient_indices(0, field.cols as int, field.rows as int),
                ),
                None => (Seq::empty(), Seq::empty()),
            };
            assert(under.0 =~= drawn.0);
            assert(under.1 =~= drawn.1);
            assert(under.0 + Seq::<V>::empty() =~= under.0);
            assert(under.1 + Seq::<u32>::empty() =~= under.1);
        }
        match plan.strokes {
            ViewStrokes::Nothing => {},
            ViewStrokes::Lines => {
                emit_strokes(&mut self.mesh, lines, first, normal, row);
            },
            ViewStrokes::Arrows => {
                let strokes: Vec<Stroke<P, Ink<D>>> = emit_arrows(
                    field,
                    sig.arrowheads,
                    shaft,
                    barbs,
                );
                proof {
                    assert forall|q: int| 0 <= q < strokes.len() implies (
                    #[trigger] strokes[q]).points.len() == 2 by {
                        assert(strokes@[q].points@.len() == 2);
                    }
                    lemma_pair_points(strokes@, strokes.len() as int);
                }
                emit_strokes(&mut self.mesh, &strokes, first, normal, row);
                self.static_version = Some(state.version);
                assert(self.shows(
                    plan.gradient,
                    *field,
                    strokes@,
                    *corner,
                    first,
                    *normal,
                    *row,
                ));
            },
        }
        self.static_version = Some(state.version);
    }

    /// Pack the particles' records: none where particles are not shown or there
    /// is no field. `tint` gives the colour at a point.
    pub fn pack_trails<L: Copy, F: Fn(P) -> (u8, u8, u8)>(
        &mut self,
        animate: bool,
        mode: FlowMode,
        cols: usize,
        particles: &FlowParticles<P, L>,
        max_points: u32,
        tint: &F,
    )
        requires
            particles.wf(),
            single_valued1(*tint),
            forall|p: P| tint.requires((p,)),
        ensures
            final(self).mesh == old(self).mesh,
            final(self).static_version == old(self).static_version,
            !(particles_shown(animate, mode) && cols > 0 && particles.pos.len() > 0) ==> {
                &&& final(self).meta.len() == 0
                &&& final(self).max_points == old(self).max_points
            },
            particles_shown(animate, mode) && cols > 0 && particles.pos.len() > 0 ==> {
                &&& final(self).max_points == max_points
                &&& final(self).meta.len() == particles.pos.len()
                &&& forall|i: int|
                    0 <= i < particles.pos.len() ==> #[trigger] final(self).meta[i] == packed_meta(
                        particles.pos[i],
                        particles.head[i],
                        particles.len[i],
                        answer1(*tint, particles.pos[i]),
                    ) && answered1(*tint, particles.pos[i])
            },
    {
        let on: bool = animate || mode == FlowMode::Particles;
        let count: usize = particles.count();
        let mut meta: Vec<TrailMeta<P>> = Vec::new();
        if !on || count == 0 || cols == 0 {
            self.meta = meta;
            return;
        }
        self.max_points = max_points;
        let mut i: usize = 0;
        while i < count
            invariant
                i <= count,
                count == particles.pos.len(),
                particles.wf(),
                single_valued1(*tint),
                forall|p: P| tint.requires((p,)),
                meta.len() == i,
                forall|k: int|
                    0 <= k < i ==> #[trigger] meta[k] == packed_meta(
                        particles.pos[k],
                        particles.head[k],
                        particles.len[k],
                        answer1(*tint, particles.pos[k]),
                    ) && answered1(*tint, particles.pos[k]),
            decreases count - i,
        {
            let pos: P = particles.pos[i];
            let rgb: (u8, u8, u8) = tint(pos);
            proof {
                lemma_answer1(*tint, pos, rgb);
            }
            meta.push(
                TrailMeta {
                    pos,
                    head: particles.head[i] as u32,
                    len: particles.len[i] as u32,
                    color: pack_color(rgb.0, rgb.1, rgb.2),
                },
            );
            i += 1;
        }
        self.meta = meta;
    }

    /// Drop the picture, the records and the particles when another experiment
    /// has just become the current one, and forget what was built.
    pub fn clear_when_inactive<L: Copy>(
        &mut self,
        changed: bool,
        current: ExperimentId,
        particles: &mut FlowParticles<P, L>,
        state: &mut FlowState,
    )
        requires
            old(self).mesh.wf(),
        ensures
            final(self).mesh.wf(),
            final(self).max_points == old(self).max_points,
            !(changed && current != ExperimentId::Flow) ==> {
                &&& *final(self) == *old(self)
                &&& *final(particles) == *old(particles)
                &&& *final(state) == *old(state)
            },
            changed && current != ExperimentId::Flow ==> {
                &&& final(self).mesh.vertices.len() == 0
                &&& final(self).mesh.indices.len() == 0
                &&& final(self).static_version is None
                &&& final(self).meta.len() == 0
                &&& final(particles).wf()
                &&& final(particles).pos.len() == 0
                &&& final(particles).rng == old(particles).rng
                &&& final(particles).clock.acc == 0
                &&& *final(state) == (FlowState { applied: None, ..*old(state) })
            },
    {
        if !crate::shell::clear_when_inactive(changed, current, ExperimentId::Flow) {
            return;
        }
        self.mesh.clear();
        self.static_version = None;
        self.meta.clear();
        particles.clear();
        state.forget();
    }
}

/// The record of a particle.
pub open spec fn packed_meta<P>(pos: P, head: u8, len: u8, rgb: (u8, u8, u8)) -> TrailMeta<P> {
    TrailMeta {
        pos,
        head: head as u32,
        len: len as u32,
        color: packed_color(rgb.0, rgb.1, rgb.2) as u32,
    }
}

/// Coming back to the field draws it anew: what was forgotten is asked for
/// again, and what is built again is drawn again.
pub proof fn law_cleared_fields_come_back<V, P: Copy>(
    data: FlowDrawData<V, P>,
    state: FlowState,
    sig: crate::flow::state::BuildSig,
    frame: crate::flow::state::FlowFrame,
    cols: int,
)
    requires
        data.static_version is None,
        state.applied is None,
        !frame.held,
        cols > 0,
    ensures
        state.due(sig, frame),
        !data.stale(state, cols),
        data.stale(FlowState { applied: Some(sig), ..state }, cols),
{
}

/// What the renderer holds of the flow.
#[derive(Clone, Copy, Debug, PartialEq, Eq, Structural)]
pub struct FlowUpload {
    pub static_index_count: u32,
    pub static_seen: Option<u64>,
    pub static_dirty: bool,
    pub trail_count: u32,
    pub trail_max_points: u32,
}

/// What the renderer copies this frame.
#[derive(Clone, Copy, Debug, PartialEq, Eq, Structural)]
pub struct FlowCopy {
    pub trails: bool,
    pub picture: bool,
}

impl FlowUpload {
    /// Nothing was copied yet.
    pub fn new() -> (upload: FlowUpload)
        ensures
            upload == (FlowUpload {
                static_index_count: 0,
                static_seen: None,
                static_dirty: false,
                trail_count: 0,
                trail_max_points: TRAIL_CAP as u32,
            }),
    {
        FlowUpload {
            static_index_count: 0,
            static_seen: None,
            static_dirty: false,
            trail_count: 0,
            trail_max_points: TRAIL_CAP as u32,
        }
    }

    /// Take over this frame's data: the trails whenever there are some, the
    /// picture only when it was drawn anew.
    pub fn extract_flow<V, P: Copy>(&mut self, data: &FlowDrawData<V, P>) -> (copy: FlowCopy)
        requires
            data.meta.len() <= u32::MAX,
            data.mesh.indices.len() <= u32::MAX,
        ensures
            copy.trails == (data.meta.len() > 0),
            copy.picture == (old(self).static_seen != data.static_version),
            final(self).trail_count == data.meta.len(),
            final(self).trail_max_points == (if copy.trails {
                data.max_points
            } else {
                old(self).trail_max_points
            }),
            final(self).static_seen == data.static_version,
            copy.picture ==> {
                &&& final(self).static_index_count == data.mesh.indices.len()
                &&& final(self).static_dirty
            },
            !copy.picture ==> {
                &&& final(self).static_index_count == old(self).static_index_count
                &&& final(self).static_dirty == old(self).static_dirty
            },
    {
        let trails: bool = data.meta.len() > 0;
        if trails {
            self.trail_count = data.meta.len() as u32;
            self.trail_max_points = data.max_points;
        } else {
            self.trail_count = 0;
        }
        let seen: bool = match (self.static_seen, data.static_version) {
            (Some(a), Some(b)) => a == b,
            (None, None) => true,
            _ => false,
        };
        if !seen {
            self.static_index_count = data.mesh.indices.len() as u32;
            self.static_seen = data.static_version;
            self.static_dirty = true;
        }
        FlowCopy { trails, picture: !seen }
    }

    /// Whether the picture is uploaded: once after it was copied, and only if it
    /// shows something.
    pub fn prepare_flow(&mut self) -> (upload: bool)
        ensures
            upload == (old(self).static_dirty && old(self).static_index_count > 0),
            *final(self) == (FlowUpload { static_dirty: false, ..*old(self) }),
    {
        let upload: bool = self.static_dirty && self.static_index_count > 0;
        self.static_dirty = false;
        upload
    }

    /// The layers to queue in painting order, with their sort keys in
    /// thousandths: the picture, and the trails over it.
    pub open spec fn layers(self) -> Seq<(FlowLayer, i32)> {
        let picture = if self.static_index_count > 0 {
            seq![(FlowLayer::Picture, 0i32)]
        } else {
            Seq::empty()
        };
        let trails = if self.trail_count > 0 {
            seq![(FlowLayer::Trails, 1i32)]
        } else {
            Seq::empty()
        };
        picture + trails
    }

    /// The layers to queue.
    pub fn queue_flow(&self) -> (layers: Vec<(FlowLayer, i32)>)
        ensures
            layers@ == self.layers(),
    {
        let mut layers: Vec<(FlowLayer, i32)> = Vec::new();
        if self.static_index_count > 0 {
            layers.push((FlowLayer::Picture, 0));
        }
        if self.trail_count > 0 {
            layers.push((FlowLayer::Trails, 1));
        }
        assert(layers@ =~= self.layers());
        layers
    }

    /// What the trails' draw is; `bound` tells whether their records were
    /// prepared.
    pub fn trails_draw(&self, bound: bool) -> (draw: crate::fish::layers::LayerDraw)
        requires
            particle_vertices(self.trail_max_points as int) <= u32::MAX,
            self.trail_count * particle_vertices(self.trail_max_points as int) <= u32::MAX,
        ensures
            draw == (if self.trail_count == 0 {
                crate::fish::layers::LayerDraw::Skip
            } else if !bound {
                crate::fish::layers::LayerDraw::Unbound
            } else {
                crate::fish::layers::LayerDraw::Vertices(
                    (self.trail_count * particle_vertices(self.trail_max_points as int)) as u32,
                )
            }),
    {
        if self.trail_count == 0 {
            crate::fish::layers::LayerDraw::Skip
        } else if !bound {
            crate::fish::layers::LayerDraw::Unbound
        } else {
            let each: u32 = trail_verts_per_particle(self.trail_max_points);
            crate::fish::layers::LayerDraw::Vertices(self.trail_count * each)
        }
    }
}

/// The layers of the flow.
#[derive(Clone, Copy, Debug, PartialEq, Eq, Structural)]
pub enum FlowLayer {
    Picture,
    Trails,
}

/// The vertex buffer of the picture: a place and a colour.
pub fn flow_layout() -> (layout: BufferLayout)
    ensures
        layout.holds(
            StepMode::Vertex,
            seq![AttributeFormat::Float32x2, AttributeFormat::Unorm8x4],
            0,
        ),
{
    pair_layout(
        StepMode::Vertex,
        AttributeFormat::Float32x2,
        8,
        AttributeFormat::Unorm8x4,
        4,
        0,
    )
}

/// The gradient is the whole picture at full brightness, and elsewhere a dimmed
/// ground that is drawn only where it is wanted; dimmest under strokes. Lines and
/// arrows are drawn in their own modes only.
pub proof fn law_plans_follow_their_mode(mode: FlowMode, background: bool)
    ensures
        ({
            let plan = planned(mode, background);
            &&& mode == FlowMode::Gradient ==> plan.gradient == Some(100u32)
            &&& mode != FlowMode::Gradient && !background ==> plan.gradient is None
            &&& mode == FlowMode::Particles && background ==> plan.gradient == Some(60u32)
            &&& (mode == FlowMode::Streamlines || mode == FlowMode::Arrows) && background
                ==> plan.gradient == Some(45u32)
            &&& (plan.strokes is Lines <==> mode == FlowMode::Streamlines)
            &&& (plan.strokes is Arrows <==> mode == FlowMode::Arrows)
        }),
{
}

/// Strokes lie on the gradient: its vertices and triangles come first and are as
/// they are alone, and what follows are the strokes, as they are alone behind
/// that many vertices.
pub proof fn law_strokes_lie_on_the_gradient<
    D,
    P,
    N,
    V,
    C: Fn(u32, usize, usize) -> V,
    H: Fn(P, P) -> Option<N>,
    R: Fn(Ink<D>, RibbonPoint<P, N>) -> Row<V>,
>(
    brightness: u32,
    cols: int,
    rows: int,
    strokes: Seq<Stroke<P, Ink<D>>>,
    corner: C,
    first: N,
    normal: H,
    row: R,
)
    requires
        cols >= 0,
        rows >= 0,
    ensures
        ({
            let ground = gradient_vertices(brightness, cols, rows, corner);
            let faces = gradient_indices(0, cols, rows);
            let both = picture(Some(brightness), cols, rows, strokes, corner, first, normal, row);
            let bare = picture(None, cols, rows, strokes, corner, first, normal, row);
            let n = strokes.len() as int;
            let base = (rows + 1) * (cols + 1);
            &&& ground.len() == base
            &&& both.0.take(base) == ground
            &&& both.1.take(faces.len() as int) == faces
            &&& both.0.skip(base) == strokes_drawn(strokes, first, normal, row, base, n).0
            &&& both.1.skip(faces.len() as int) == strokes_drawn(
                strokes,
                first,
                normal,
                row,
                base,
                n,
            ).1
            &&& bare == strokes_drawn(strokes, first, normal, row, 0, n)
        }),
{
    let ground = gradient_vertices(brightness, cols, rows, corner);
    let faces = gradient_indices(0, cols, rows);
    let both = picture(Some(brightness), cols, rows, strokes, corner, first, normal, row);
    let bare = picture(None, cols, rows, strokes, corner, first, normal, row);
    let n = strokes.len() as int;
    let base = (rows + 1) * (cols + 1);
    assert(base >= 0) by (nonlinear_arith)
        requires
            base == (rows + 1) * (cols + 1),
            cols >= 0,
            rows >= 0,
    ;
    assert(both.0.take(base) =~= ground);
    assert(both.1.take(faces.len() as int) =~= faces);
    assert(both.0.skip(base) =~= strokes_drawn(strokes, first, normal, row, base, n).0);
    assert(both.1.skip(faces.len() as int) =~= strokes_drawn(
        strokes,
        first,
        normal,
        row,
        base,
        n,
    ).1);
    let drawn = strokes_drawn(strokes, first, normal, row, 0, n);
    assert(bare.0 =~= drawn.0);
    assert(bare.1 =~= drawn.1);
}

/// A particle's record says where it is, where its newest sample stands and how
/// many it has, and its colour byte by byte, opaque.
pub proof fn law_records_tell_their_particle<P>(pos: P, head: u8, len: u8, rgb: (u8, u8, u8))
    ensures
        ({
            let meta = packed_meta(pos, head, len, rgb);
            &&& meta.pos == pos
            &&& meta.head == head
            &&& meta.len == len
            &&& meta.color % 0x100 == rgb.0
            &&& (meta.color / 0x100) % 0x100 == rgb.1
            &&& (meta.color / 0x1_0000) % 0x100 == rgb.2
            &&& meta.color / 0x100_0000 == 255
        }),
{
    law_packed_colors_unpack(rgb.0, rgb.1, rgb.2);
}

/// The trails are drawn over the picture, and neither where it is empty.
pub proof fn law_trails_lie_over_the_picture(upload: FlowUpload)
    ensures
        ({
            let layers = upload.layers();
            &&& layers.contains((FlowLayer::Picture, 0i32)) <==> upload.static_index_count > 0
            &&& layers.contains((FlowLayer::Trails, 1i32)) <==> upload.trail_count > 0
            &&& upload.static_index_count > 0 && upload.trail_count > 0 ==> layers == seq![
                (FlowLayer::Picture, 0i32),
                (FlowLayer::Trails, 1i32),
            ]
            &&& layers.len() <= 2
        }),
{
    let layers = upload.layers();
    if upload.static_index_count > 0 {
        assert(layers[0] == (FlowLayer::Picture, 0i32));
        if upload.trail_count > 0 {
            assert(layers[1] == (FlowLayer::Trails, 1i32));
            assert(layers =~= seq![(FlowLayer::Picture, 0i32), (FlowLayer::Trails, 1i32)]);
        }
    } else if upload.trail_count > 0 {
        assert(layers[0] == (FlowLayer::Trails, 1i32));
    }
}

/// A row is shown where it changes what is drawn: the rows of lines and of arrows
/// with these, those of strokes with either, that of the ground where the ground
/// can be left off, that of riding particles where they can be left off, and those
/// of particles where there are any.
pub proof fn law_rows_are_shown_where_they_matter<V>(s: FlowSettings<V>)
    ensures
        FlowRow::Always.shown(s),
        FlowRow::Stream.shown(s) <==> planned(s.mode, s.background).strokes is Lines,
        FlowRow::Arrow.shown(s) <==> planned(s.mode, s.background).strokes is Arrows,
        FlowRow::Stroke.shown(s) <==> !(planned(s.mode, s.background).strokes is Nothing),
        FlowRow::Background.shown(s) <==> planned(s.mode, true).gradient != planned(
            s.mode,
            false,
        ).gradient,
        FlowRow::Overlay.shown(s) <==> particles_shown(true, s.mode) != particles_shown(
            false,
            s.mode,
        ),
        FlowRow::Particle.shown(s) <==> particles_shown(s.animate, s.mode),
{
}

} // verus!
