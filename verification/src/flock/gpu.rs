//! The flock on the graphics card: its size, its uploads and its passes.

use vstd::prelude::*;

use crate::arith::{ceil_div, least, lemma_ceil_div};
use crate::bytes::{bytes_of, flat, in_memory};
use crate::flock::size::target_size;
use crate::shell::AppState;

verus! {

/// How many boids the buffers hold.
pub const MAX_BOIDS: usize = 2_097_152;

/// How many grid cells the buffers hold.
pub const MAX_CELLS: usize = 16_384;

/// Threads per workgroup, here and in the shaders.
pub const WORKGROUP: u32 = 256;

/// How many boids live on the card, and the new ones of this frame.
pub struct GpuFlock<V> {
    pub count: usize,
    /// The index of the first pending boid.
    pub base: u32,
    /// The states of the boids that are to be uploaded from `base` on.
    pub upload: Vec<V>,
}

impl<V> GpuFlock<V> {
    /// The flock fits the buffers.
    pub open spec fn wf(&self) -> bool {
        self.count <= MAX_BOIDS
    }

    /// No boid yet, and none to upload.
    pub fn new() -> (flock: Self)
        ensures
            flock.wf(),
            flock.count == 0,
            flock.base == 0,
            flock.upload@ == Seq::<V>::empty(),
    {
        GpuFlock { count: 0, base: 0, upload: Vec::new() }
    }

    /// Whether this frame starts the flock over: the UI's request counts
    /// wherever the simulation runs, the key only during play.
    pub open spec fn restarts(state: AppState, requested: bool, key: bool) -> bool {
        (requested && state.runs()) || (key && state == AppState::Playing)
    }

    /// The size that a tuned count asks for, within the buffers.
    pub open spec fn target(count: usize) -> int {
        least(target_size(count), MAX_BOIDS as int)
    }

    /// Grow or shrink the flock to its tuned count, and tell whether the
    /// simulation steps this frame. Growing appends boids from `spawn`;
    /// shrinking truncates, since the state is kept in insertion order.
    pub fn gpu_sync_flock<F: Fn() -> V>(
        &mut self,
        state: AppState,
        restart: &mut bool,
        key: bool,
        count: usize,
        spawn: F,
    ) -> (run: bool)
        requires
            old(self).wf(),
            spawn.requires(()),
        ensures
            final(self).wf(),
            *final(restart) == (*old(restart) && !Self::restarts(state, *old(restart), key)),
            final(self).base == (if Self::restarts(state, *old(restart), key) {
                0int
            } else {
                old(self).count as int
            }),
            final(self).count == (if state.runs() {
                Self::target(count)
            } else if Self::restarts(state, *old(restart), key) {
                0
            } else {
                old(self).count as int
            }),
            final(self).upload.len() == (if state.runs() && final(self).base < final(self).count {
                final(self).count - final(self).base
            } else {
                0
            }),
            forall|k: int|
                0 <= k < final(self).upload.len() ==> spawn.ensures(
                    (),
                    #[trigger] final(self).upload[k],
                ),
            run == (state.runs() && final(self).count > 0),
    {
        self.upload.clear();
        self.base = self.count as u32;
        let playing: bool = state == AppState::Playing;
        let active: bool = state.sim_runs();
        if (*restart && active) || (key && playing) {
            *restart = false;
            self.count = 0;
            self.base = 0;
        }
        if active {
            let wanted: usize = if count < 1 {
                1
            } else {
                count
            };
            let target: usize = if wanted < MAX_BOIDS {
                wanted
            } else {
                MAX_BOIDS
            };
            let mut k: usize = self.count;
            let ghost first = k;
            let ghost base = self.base;
            while k < target
                invariant
                    first == base,
                    first <= k,
                    k <= target || k == first,
                    spawn.requires(()),
                    self.base == base,
                    self.upload.len() == k - first,
                    forall|j: int|
                        0 <= j < self.upload.len() ==> spawn.ensures((), #[trigger] self.upload[j]),
                decreases target - k,
            {
                let fresh: V = spawn();
                self.upload.push(fresh);
                k += 1;
            }
            self.count = target;
        }
        active && self.count > 0
    }

    /// Where the pending states go in the state buffer, in bytes; nowhere
    /// where none is pending.
    pub fn upload_offset(&self) -> (offset: Option<u64>)
        ensures
            offset == (if self.upload.len() == 0 {
                None::<u64>
            } else {
                Some((16 * least(self.base as int, MAX_BOIDS as int)) as u64)
            }),
    {
        if self.upload.len() == 0 {
            return None;
        }
        let base: u64 = if (self.base as usize) < MAX_BOIDS {
            self.base as u64
        } else {
            MAX_BOIDS as u64
        };
        Some(base * 16)
    }
}

impl GpuFlock<[u32; 4]> {
    /// What is written into the state buffer: where, and the bytes of the
    /// pending states, which are bit patterns. Nothing where none is pending.
    pub fn prepare_sim(&self) -> (write: Option<(u64, Vec<u8>)>)
        ensures
            write is Some <==> self.upload.len() > 0,
            write matches Some(w) ==> {
                &&& w.0 == 16 * least(self.base as int, MAX_BOIDS as int)
                &&& w.1@ == in_memory(flat(self.upload@), true) || w.1@ == in_memory(
                    flat(self.upload@),
                    false,
                )
            },
    {
        match self.upload_offset() {
            Some(offset) => Some((offset, bytes_of(&self.upload))),
            None => None,
        }
    }
}

/// The pending boids fill the flock exactly: those that stay and those that are
/// uploaded are as many as the flock has.
pub proof fn law_uploads_complete_the_flock(kept: int, count: usize, uploaded: int)
    requires
        0 <= kept < GpuFlock::<u8>::target(count),
        uploaded == GpuFlock::<u8>::target(count) - kept,
    ensures
        kept + uploaded == GpuFlock::<u8>::target(count),
        16 * (kept + uploaded) <= buffer_bytes(GpuBuffer::State),
        1 <= GpuFlock::<u8>::target(count) <= MAX_BOIDS,
{
}

/// The buffers of the simulation on the card.
#[derive(Clone, Copy, Debug, PartialEq, Eq, Structural)]
pub enum GpuBuffer {
    State,
    SortedPos,
    SortedVel,
    CellOf,
    IdOf,
    Counts,
    Starts,
    Instances,
    InstancesRev,
}

/// What a buffer is used for besides storage.
#[derive(Clone, Copy, Debug, PartialEq, Eq, Structural)]
pub enum BufferUse {
    Storage,
    CopyTarget,
    VertexSource,
}

/// How many bytes a buffer holds.
pub open spec fn buffer_bytes(buffer: GpuBuffer) -> int {
    match buffer {
        GpuBuffer::State | GpuBuffer::Instances | GpuBuffer::InstancesRev => MAX_BOIDS * 16,
        GpuBuffer::SortedPos | GpuBuffer::SortedVel => MAX_BOIDS * 8,
        GpuBuffer::CellOf | GpuBuffer::IdOf => MAX_BOIDS * 4,
        GpuBuffer::Counts => MAX_CELLS * 4,
        GpuBuffer::Starts => (MAX_CELLS + 1) * 4,
    }
}

impl GpuBuffer {
    /// The buffers in the order of their bindings, behind the uniform.
    pub fn bindings() -> (all: [GpuBuffer; 9])
        ensures
            all@ == seq![
                GpuBuffer::State,
                GpuBuffer::SortedPos,
                GpuBuffer::SortedVel,
                GpuBuffer::CellOf,
                GpuBuffer::IdOf,
                GpuBuffer::Counts,
                GpuBuffer::Starts,
                GpuBuffer::Instances,
                GpuBuffer::InstancesRev,
            ],
    {
        [
            GpuBuffer::State,
            GpuBuffer::SortedPos,
            GpuBuffer::SortedVel,
            GpuBuffer::CellOf,
            GpuBuffer::IdOf,
            GpuBuffer::Counts,
            GpuBuffer::Starts,
            GpuBuffer::Instances,
            GpuBuffer::InstancesRev,
        ]
    }

    /// How many bytes the buffer holds.
    pub fn size(self) -> (bytes: u64)
        ensures
            bytes == buffer_bytes(self),
    {
        let n: u64 = MAX_BOIDS as u64;
        let cells: u64 = MAX_CELLS as u64;
        match self {
            GpuBuffer::State | GpuBuffer::Instances | GpuBuffer::InstancesRev => n * 16,
            GpuBuffer::SortedPos | GpuBuffer::SortedVel => n * 8,
            GpuBuffer::CellOf | GpuBuffer::IdOf => n * 4,
            GpuBuffer::Counts => cells * 4,
            GpuBuffer::Starts => (cells + 1) * 4,
        }
    }

    /// What the buffer is used for besides storage: new boids are copied into
    /// the state, and the reversed instances are drawn from.
    pub fn extra_use(self) -> (extra: BufferUse)
        ensures
            extra == (match self {
                GpuBuffer::State => BufferUse::CopyTarget,
                GpuBuffer::InstancesRev => BufferUse::VertexSource,
                _ => BufferUse::Storage,
            }),
    {
        match self {
            GpuBuffer::State => BufferUse::CopyTarget,
            GpuBuffer::InstancesRev => BufferUse::VertexSource,
            _ => BufferUse::Storage,
        }
    }

    /// The buffer's name.
    pub fn label(self) -> (label: &'static str)
        ensures
            label@ == (match self {
                GpuBuffer::State => "flock_state"@,
                GpuBuffer::SortedPos => "flock_sorted_pos"@,
                GpuBuffer::SortedVel => "flock_sorted_vel"@,
                GpuBuffer::CellOf => "flock_cell_of"@,
                GpuBuffer::IdOf => "flock_id_of"@,
                GpuBuffer::Counts => "flock_counts"@,
                GpuBuffer::Starts => "flock_starts"@,
                GpuBuffer::Instances => "flock_instances"@,
                GpuBuffer::InstancesRev => "flock_instances_rev"@,
            }),
    {
        match self {
            GpuBuffer::State => "flock_state",
            GpuBuffer::SortedPos => "flock_sorted_pos",
            GpuBuffer::SortedVel => "flock_sorted_vel",
            GpuBuffer::CellOf => "flock_cell_of",
            GpuBuffer::IdOf => "flock_id_of",
            GpuBuffer::Counts => "flock_counts",
            GpuBuffer::Starts => "flock_starts",
            GpuBuffer::Instances => "flock_instances",
            GpuBuffer::InstancesRev => "flock_instances_rev",
        }
    }
}

/// The compute passes of one frame.
#[derive(Clone, Copy, Debug, PartialEq, Eq, Structural)]
pub enum SimPass {
    ClearGrid,
    CountBoids,
    ScanCells,
    Scatter,
    Steer,
    ReverseInstances,
}

impl SimPass {
    /// The pass's entry point in the shader.
    pub fn entry(self) -> (name: &'static str)
        ensures
            name@ == (match self {
                SimPass::ClearGrid => "clear_grid"@,
                SimPass::CountBoids => "count_boids"@,
                SimPass::ScanCells => "scan_cells"@,
                SimPass::Scatter => "scatter"@,
                SimPass::Steer => "steer"@,
                SimPass::ReverseInstances => "reverse_instances"@,
            }),
    {
        match self {
            SimPass::ClearGrid => "clear_grid",
            SimPass::CountBoids => "count_boids",
            SimPass::ScanCells => "scan_cells",
            SimPass::Scatter => "scatter",
            SimPass::Steer => "steer",
            SimPass::ReverseInstances => "reverse_instances",
        }
    }
}

/// The sizes that a frame's passes are cut by.
#[derive(Clone, Copy, Debug, PartialEq, Eq, Structural)]
pub struct GpuFlockParams {
    pub count: u32,
    pub cols: u32,
    pub rows: u32,
}

impl GpuFlockParams {
    /// How many boids are drawn.
    pub fn count(&self) -> (n: u32)
        ensures
            n == self.count,
    {
        self.count
    }
}

/// The workgroups that cover `n` threads.
pub open spec fn groups(n: int) -> int {
    ceil_div(n, WORKGROUP as int)
}

/// The passes of a frame with their workgroups: the simulation proper while it
/// steps, and always the reversed copy that is drawn, so that a count changed
/// while paused shows.
pub open spec fn dispatches(stepping: bool, p: GpuFlockParams) -> Seq<(SimPass, u32)> {
    let boids = groups(p.count as int) as u32;
    let copy = seq![(SimPass::ReverseInstances, boids)];
    if stepping {
        seq![
            (SimPass::ClearGrid, groups(p.cols * p.rows) as u32),
            (SimPass::CountBoids, boids),
            (SimPass::ScanCells, 1u32),
            (SimPass::Scatter, boids),
            (SimPass::Steer, boids),
        ] + copy
    } else {
        copy
    }
}

/// The workgroups that cover `n` threads.
pub fn group_count(n: u32) -> (g: u32)
    ensures
        g == groups(n as int),
        g as int * WORKGROUP as int >= n,
{
    proof {
        lemma_ceil_div(n as int, WORKGROUP as int);
    }
    if n % WORKGROUP == 0 {
        n / WORKGROUP
    } else {
        n / WORKGROUP + 1
    }
}

/// The passes to run this frame: none before the pipelines are ready, the
/// parameters have arrived and the bindings stand, and none for an empty
/// flock.
pub fn dispatch_plan(
    ready: bool,
    stepping: bool,
    params: Option<GpuFlockParams>,
    bound: bool,
) -> (plan: Vec<(SimPass, u32)>)
    requires
        params matches Some(p) ==> p.cols * p.rows <= u32::MAX,
    ensures
        plan@ == (match params {
            Some(p) if ready && bound && p.count > 0 => dispatches(stepping, p),
            _ => Seq::<(SimPass, u32)>::empty(),
        }),
{
    let mut plan: Vec<(SimPass, u32)> = Vec::new();
    if !ready {
        return plan;
    }
    match params {
        None => plan,
        Some(p) => {
            if p.count == 0 || !bound {
                return plan;
            }
            let boids: u32 = group_count(p.count);
            if stepping {
                let cells: u32 = group_count(p.cols * p.rows);
                plan.push((SimPass::ClearGrid, cells));
                plan.push((SimPass::CountBoids, boids));
                plan.push((SimPass::ScanCells, 1));
                plan.push((SimPass::Scatter, boids));
                plan.push((SimPass::Steer, boids));
            }
            plan.push((SimPass::ReverseInstances, boids));
            plan
        },
    }
}

/// What the pipeline cache says of a compute pipeline.
#[derive(Clone, Copy, Debug, PartialEq, Eq, Structural)]
pub enum PipelineState {
    Ready,
    Waiting,
    Failed,
}

/// `i` is the first pipeline that is not ready.
pub open spec fn first_unready(states: Seq<PipelineState>, i: int) -> bool {
    &&& 0 <= i < states.len()
    &&& states[i] != PipelineState::Ready
    &&& forall|j: int| 0 <= j < i ==> #[trigger] states[j] == PipelineState::Ready
}

/// Whether every pipeline is ready, once it is known: a pipeline that failed
/// before any that still waits is an error, with its number.
pub fn sim_ready(was_ready: bool, states: &Vec<PipelineState>) -> (ready: Result<bool, usize>)
    ensures
        ready == Ok::<bool, usize>(true) <==> was_ready || (forall|i: int|
            0 <= i < states.len() ==> #[trigger] states[i] == PipelineState::Ready),
        ready == Ok::<bool, usize>(false) <==> !was_ready && exists|i: int| #[trigger]
            first_unready(states@, i) && states[i] == PipelineState::Waiting,
        ready matches Err(i) ==> !was_ready && first_unready(states@, i as int) && states[i as int]
            == PipelineState::Failed,
{
    if was_ready {
        return Ok(true);
    }
    let mut i: usize = 0;
    while i < states.len()
        invariant
            !was_ready,
            i <= states.len(),
            forall|j: int| 0 <= j < i ==> #[trigger] states[j] == PipelineState::Ready,
        decreases states.len() - i,
    {
        match states[i] {
            PipelineState::Ready => {},
            PipelineState::Waiting => {
                assert(first_unready(states@, i as int));
                return Ok(false);
            },
            PipelineState::Failed => {
                proof {
                    assert forall|k: int| #[trigger] first_unready(states@, k) implies k == i by {
                        if k < i {
                            assert(states[k] == PipelineState::Ready);
                        } else if k > i {
                            assert(states[i as int] == PipelineState::Ready);
                        }
                    }
                }
                return Err(i);
            },
        }
        i += 1;
    }
    Ok(true)
}

/// Where the mouse pulls the flock to on the card: nowhere behind the menu.
pub fn gpu_mouse_target<P>(
    state: AppState,
    pinned: bool,
    over_ui: bool,
    centre: P,
    cursor: Option<P>,
) -> (mouse: Option<P>)
    ensures
        mouse == (if state == AppState::Menu {
            None
        } else if pinned {
            Some(centre)
        } else if over_ui {
            None
        } else {
            cursor
        }),
{
    if state == AppState::Menu {
        None
    } else {
        crate::flock::size::mouse_target(pinned, over_ui, centre, cursor)
    }
}

/// The work groups of a pass cover all it works on, and one group fewer would not.
pub proof fn law_groups_cover_their_work(n: int)
    requires
        n >= 0,
    ensures
        256 * groups(n) >= n,
        n > 0 ==> 256 * (groups(n) - 1) < n,
        groups(0) == 0,
{
}

/// A step clears the grid, counts the boids into it, sums up the cells in one group,
/// sorts the boids and steers them, in this order; the copy that is drawn is made
/// last, and made also without a step. Each pass has the groups for all the cells or
/// all the boids.
pub proof fn law_passes_run_in_order(p: GpuFlockParams)
    requires
        p.cols * p.rows <= u32::MAX,
    ensures
        ({
            let plan = dispatches(true, p);
            let boids = plan[5].1;
            &&& plan.len() == 6
            &&& plan[0].0 == SimPass::ClearGrid && 256 * plan[0].1 >= p.cols * p.rows
            &&& plan[1].0 == SimPass::CountBoids && plan[1].1 == boids
            &&& plan[2] == (SimPass::ScanCells, 1u32)
            &&& plan[3].0 == SimPass::Scatter && plan[3].1 == boids
            &&& plan[4].0 == SimPass::Steer && plan[4].1 == boids
            &&& plan[5].0 == SimPass::ReverseInstances
            &&& 256 * boids >= p.count
            &&& p.count > 0 ==> 256 * (boids - 1) < p.count
            &&& dispatches(false, p) == seq![(SimPass::ReverseInstances, boids)]
        }),
{
    assert(dispatches(false, p) =~= seq![(SimPass::ReverseInstances, dispatches(true, p)[5].1)]);
}

/// The buffers hold what each boid and each cell needs: four words of state and of
/// what is drawn, two of a sorted place or speed, one of a cell or a number, and
/// one for each cell and its start, with the end of the last behind.
pub proof fn law_buffers_hold_the_largest_flock()
    ensures
        buffer_bytes(GpuBuffer::State) == 4 * 4 * 2_097_152,
        buffer_bytes(GpuBuffer::Instances) == buffer_bytes(GpuBuffer::State),
        buffer_bytes(GpuBuffer::InstancesRev) == buffer_bytes(GpuBuffer::Instances),
        buffer_bytes(GpuBuffer::SortedPos) == 2 * 4 * 2_097_152,
        buffer_bytes(GpuBuffer::SortedVel) == buffer_bytes(GpuBuffer::SortedPos),
        buffer_bytes(GpuBuffer::CellOf) == 4 * 2_097_152,
        buffer_bytes(GpuBuffer::IdOf) == buffer_bytes(GpuBuffer::CellOf),
        buffer_bytes(GpuBuffer::Counts) == 4 * 16_384,
        buffer_bytes(GpuBuffer::Starts) == buffer_bytes(GpuBuffer::Counts) + 4,
{
}

/// A restart comes from a request while the flock runs, or from its key while the
/// program plays.
pub proof fn law_restarts_come_from_request_or_key(state: AppState)
    ensures
        GpuFlock::<u8>::restarts(state, true, false) <==> state != AppState::Options,
        GpuFlock::<u8>::restarts(state, false, true) <==> state == AppState::Playing,
        !GpuFlock::<u8>::restarts(state, false, false),
{
}

} // verus!
