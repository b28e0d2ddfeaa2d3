//! What of the forest is copied to the renderer, and how it is drawn.

use vstd::prelude::*;

use crate::forest::model::Forest;
use crate::layout::{pair_layout, AttributeFormat, BufferLayout, StepMode};

verus! {

/// The part of the triangles that one forest has: so many indices from `start`
/// on.
#[derive(Clone, Copy, Debug, PartialEq, Eq, Structural)]
pub struct ForestRange {
    pub start: u32,
    pub count: u32,
}

/// One draw: the indices of a range, with the colours of forest `forest`.
#[derive(Clone, Copy, Debug, PartialEq, Eq, Structural)]
pub struct ForestDraw {
    pub start: u32,
    pub count: u32,
    pub forest: usize,
}

/// The draws of the first `k` ranges: one for each that is not empty and has a
/// forest to take its colours from.
pub open spec fn draws_of(ranges: Seq<ForestRange>, forests: int, k: int) -> Seq<ForestDraw>
    decreases k,
{
    if k <= 0 {
        Seq::empty()
    } else {
        let before = draws_of(ranges, forests, k - 1);
        let range = ranges[k - 1];
        if range.count == 0 || k - 1 >= forests {
            before
        } else {
            before.push(
                ForestDraw { start: range.start, count: range.count, forest: (k - 1) as usize },
            )
        }
    }
}

/// The draws of the ranges of so many forests.
pub fn forest_draws(ranges: &Vec<ForestRange>, forests: usize) -> (draws: Vec<ForestDraw>)
    ensures
        draws@ == draws_of(ranges@, forests as int, ranges.len() as int),
{
    let mut draws: Vec<ForestDraw> = Vec::new();
    let mut i: usize = 0;
    while i < ranges.len()
        invariant
            i <= ranges.len(),
            draws@ == draws_of(ranges@, forests as int, i as int),
        decreases ranges.len() - i,
    {
        let range: ForestRange = ranges[i];
        if range.count != 0 && i < forests {
            draws.push(ForestDraw { start: range.start, count: range.count, forest: i });
        }
        i += 1;
    }
    draws
}

/// Every draw is that of a range which is not empty and has a forest, and each
/// such range is drawn, in the order of the ranges.
pub proof fn law_draws_follow_their_ranges(ranges: Seq<ForestRange>, forests: int, k: int)
    requires
        0 <= k <= ranges.len(),
        ranges.len() <= usize::MAX,
    ensures
        forall|d: int|
            0 <= d < draws_of(ranges, forests, k).len() ==> {
                let draw = #[trigger] draws_of(ranges, forests, k)[d];
                &&& draw.forest < k
                &&& draw.forest < forests
                &&& draw.count > 0
                &&& ranges[draw.forest as int] == (ForestRange {
                    start: draw.start,
                    count: draw.count,
                })
            },
        forall|i: int|
            0 <= i < k && i < forests && (#[trigger] ranges[i]).count > 0 ==> draws_of(
                ranges,
                forests,
                k,
            ).contains(
                ForestDraw { start: ranges[i].start, count: ranges[i].count, forest: i as usize },
            ),
        forall|c: int, d: int|
            0 <= c < d < draws_of(ranges, forests, k).len() ==> (#[trigger] draws_of(
                ranges,
                forests,
                k,
            )[c]).forest < (#[trigger] draws_of(ranges, forests, k)[d]).forest,
    decreases k,
{
    if k > 0 {
        law_draws_follow_their_ranges(ranges, forests, k - 1);
        let before = draws_of(ranges, forests, k - 1);
        let now = draws_of(ranges, forests, k);
        assert forall|i: int| 0 <= i < k && i < forests && (#[trigger] ranges[i]).count
            > 0 implies now.contains(
            ForestDraw { start: ranges[i].start, count: ranges[i].count, forest: i as usize },
        ) by {
            let draw = ForestDraw {
                start: ranges[i].start,
                count: ranges[i].count,
                forest: i as usize,
            };
            if i < k - 1 {
                let d = choose|d: int| 0 <= d < before.len() && before[d] == draw;
                assert(now[d] == draw);
            } else {
                assert(now[now.len() - 1] == draw);
            }
        }
    }
}

/// What the renderer holds of the forest.
#[derive(Clone, Copy, Debug, PartialEq, Eq, Structural)]
pub struct ForestUpload {
    pub index_count: u32,
    pub seen: Option<u64>,
    pub dirty: bool,
}

/// What to do for the forest's draw.
#[derive(Clone, Copy, Debug, PartialEq, Eq, Structural)]
pub enum ForestPass {
    /// There is nothing to draw.
    Skip,
    /// The colours were not prepared.
    Unbound,
    /// The triangles were not uploaded.
    NotUploaded,
    /// Draw each of the draws.
    Draw,
}

impl ForestUpload {
    /// Nothing was copied yet.
    pub fn new() -> (upload: ForestUpload)
        ensures
            upload == (ForestUpload { index_count: 0, seen: None, dirty: false }),
    {
        ForestUpload { index_count: 0, seen: None, dirty: false }
    }

    /// Take over the forest's triangles when they have changed. Returns whether
    /// they are to be copied.
    pub fn extract_forest<V: Copy>(&mut self, forest: &Forest<V>) -> (copy: bool)
        requires
            forest.mesh.indices.len() <= u32::MAX,
        ensures
            copy == (old(self).seen != Some(forest.version)),
            *final(self) == (if copy {
                ForestUpload {
                    index_count: forest.mesh.indices.len() as u32,
                    seen: Some(forest.version),
                    dirty: true,
                }
            } else {
                *old(self)
            }),
    {
        if self.seen == Some(forest.version) {
            return false;
        }
        self.index_count = forest.mesh.indices.len() as u32;
        self.seen = Some(forest.version);
        self.dirty = true;
        true
    }

    /// Whether the triangles are uploaded: once after they were copied, and only
    /// if there are some.
    pub fn prepare_forest(&mut self) -> (upload: bool)
        ensures
            upload == (old(self).dirty && old(self).index_count > 0),
            *final(self) == (ForestUpload { dirty: false, ..*old(self) }),
    {
        let upload: bool = self.dirty && self.index_count > 0;
        self.dirty = false;
        upload
    }

    /// Whether the forest is queued.
    pub fn queue_forest(&self) -> (queued: bool)
        ensures
            queued == (self.index_count > 0),
    {
        self.index_count > 0
    }

    /// Decide the forest's draw.
    pub fn forest_pass(&self, draws: usize, bound: bool, uploaded: bool) -> (pass: ForestPass)
        ensures
            pass == (if self.index_count == 0 || draws == 0 {
                ForestPass::Skip
            } else if !bound {
                ForestPass::Unbound
            } else if !uploaded {
                ForestPass::NotUploaded
            } else {
                ForestPass::Draw
            }),
    {
        if self.index_count == 0 || draws == 0 {
            ForestPass::Skip
        } else if !bound {
            ForestPass::Unbound
        } else if !uploaded {
            ForestPass::NotUploaded
        } else {
            ForestPass::Draw
        }
    }
}

/// The vertex buffer of the forest: a place, and a packed word.
pub fn forest_layout() -> (layout: BufferLayout)
    ensures
        layout.holds(
            StepMode::Vertex,
            seq![AttributeFormat::Float32x2, AttributeFormat::Uint32],
            0,
        ),
{
    pair_layout(
        StepMode::Vertex,
        AttributeFormat::Float32x2,
        8,
        AttributeFormat::Uint32,
        4,
        0,
    )
}

} // verus!
