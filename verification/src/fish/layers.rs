//! What of the pond is drawn, in which order and from which records.

use vstd::prelude::*;

use crate::fish::ripples::{living, RingEvent, RippleRings};
use crate::fish::water::{RippleGrid, WaterStyle};
use crate::layout::{pair_layout, AttributeFormat, BufferLayout, StepMode};
use crate::oracle::{answered1, single_valued1};
use crate::shell::ExperimentId;

verus! {

/// The vertices of a bubble and of a ring: one quad each.
pub const BUBBLE_VERTS: u32 = 6;

pub const RING_VERTS: u32 = 6;

/// The most bubbles whose vertices can be counted.
pub const BUBBLE_LIMIT: u32 = 715_827_882;

/// What the settings ask of the water's picture.
#[derive(Clone, Copy, Debug, PartialEq, Eq, Structural)]
pub struct WaterLook {
    pub current: ExperimentId,
    pub water: bool,
    pub style: WaterStyle,
    pub ripples: bool,
    pub bubbles: bool,
    /// Whether the bubble dial stands at one or more.
    pub some_bubbles: bool,
    /// The bubble dial, rounded.
    pub bubble_count: u32,
}

/// What the renderer has of the water.
pub struct WaterFrame<V, P, T> {
    pub water_on: bool,
    pub bubbles_on: bool,
    pub rings_on: bool,
    pub style: WaterStyle,
    /// The heights of the surface, or one calm node where they are not shown.
    pub heights: Vec<V>,
    pub cols: u32,
    pub rows: u32,
    /// Whether `heights` is the surface.
    pub ripples_live: bool,
    pub rings: Vec<RingEvent<P, T>>,
    pub ring_verts: u32,
    pub bubble_verts: u32,
}

impl WaterLook {
    /// The water is drawn.
    pub open spec fn shown(self) -> bool {
        self.current == ExperimentId::Fish && self.water
    }

    /// The surface's own heights are drawn.
    pub open spec fn shows_heights(self, cols: usize, nodes: int) -> bool {
        self.style == WaterStyle::Natural && self.ripples && cols >= 2 && nodes > 0
    }
}

impl<V: Copy, P: Copy, T: Copy> WaterFrame<V, P, T> {
    /// Nothing is drawn yet.
    pub fn new() -> (frame: Self)
        ensures
            !frame.water_on,
            !frame.bubbles_on,
            !frame.rings_on,
            frame.style == WaterStyle::Natural,
            frame.heights.len() == 0,
            frame.cols == 0,
            frame.rows == 0,
            !frame.ripples_live,
            frame.rings.len() == 0,
            frame.ring_verts == 0,
            frame.bubble_verts == 0,
    {
        WaterFrame {
            water_on: false,
            bubbles_on: false,
            rings_on: false,
            style: WaterStyle::Natural,
            heights: Vec::new(),
            cols: 0,
            rows: 0,
            ripples_live: false,
            rings: Vec::new(),
            ring_verts: 0,
            bubble_verts: 0,
        }
    }

    /// Take over this frame's water. Hidden water only switches its layers off;
    /// shown water takes the surface where it is live, the living rings of the
    /// drawn styles, and the bubbles.
    pub fn extract_water<F: Fn(RingEvent<P, T>) -> bool>(
        &mut self,
        look: WaterLook,
        grid: &RippleGrid<V>,
        pool: &RippleRings<P, T>,
        flat: V,
        alive: F,
    )
        requires
            grid.wf(),
            pool.wf(),
            grid.cols <= u32::MAX,
            grid.rows <= u32::MAX,
            look.bubble_count <= BUBBLE_LIMIT,
            single_valued1(alive),
            forall|r: RingEvent<P, T>| alive.requires((r,)),
        ensures
            final(self).water_on == look.shown(),
            final(self).style == look.style,
            !look.shown() ==> {
                &&& !final(self).bubbles_on
                &&& !final(self).rings_on
                &&& final(self).heights == old(self).heights
                &&& final(self).cols == old(self).cols
                &&& final(self).rows == old(self).rows
                &&& final(self).ripples_live == old(self).ripples_live
                &&& final(self).rings == old(self).rings
                &&& final(self).ring_verts == old(self).ring_verts
                &&& final(self).bubble_verts == old(self).bubble_verts
            },
            look.shown() ==> {
                let live = look.shows_heights(grid.cols, grid.curr.len() as int);
                let rings = if look.style == WaterStyle::Natural {
                    Seq::empty()
                } else {
                    living(pool.rings@, alive, pool.rings.len() as int)
                };
                &&& final(self).ripples_live == live
                &&& final(self).heights@ == (if live {
                    grid.curr@
                } else {
                    seq![flat]
                })
                &&& final(self).cols == (if live {
                    grid.cols as int
                } else {
                    1
                })
                &&& final(self).rows == (if live {
                    grid.rows as int
                } else {
                    1
                })
                &&& final(self).heights.len() == final(self).cols * final(self).rows
                &&& final(self).rings@ == rings
                &&& final(self).rings_on == (rings.len() > 0)
                &&& final(self).ring_verts == rings.len() * RING_VERTS
                &&& look.style != WaterStyle::Natural ==> forall|i: int|
                    0 <= i < pool.rings.len() ==> answered1(alive, #[trigger] pool.rings[i])
                &&& final(self).bubbles_on == (look.bubbles && look.some_bubbles)
                &&& final(self).bubble_verts == look.bubble_count * BUBBLE_VERTS
            },
    {
        self.water_on = look.current == ExperimentId::Fish && look.water;
        self.style = look.style;
        if !self.water_on {
            self.bubbles_on = false;
            self.rings_on = false;
            return;
        }
        let natural: bool = look.style == WaterStyle::Natural;
        let live: bool = natural && look.ripples && grid.cols >= 2 && grid.curr.len() > 0;
        let mut heights: Vec<V> = Vec::new();
        if live {
            let mut i: usize = 0;
            while i < grid.curr.len()
                invariant
                    i <= grid.curr.len(),
                    heights@ == grid.curr@.take(i as int),
                decreases grid.curr.len() - i,
            {
                heights.push(grid.curr[i]);
                i += 1;
                assert(heights@ =~= grid.curr@.take(i as int));
            }
            assert(heights@ =~= grid.curr@);
            self.cols = grid.cols as u32;
            self.rows = grid.rows as u32;
        } else {
            heights.push(flat);
            assert(heights@ =~= seq![flat]);
            self.cols = 1;
            self.rows = 1;
        }
        self.ripples_live = live;
        self.heights = heights;
        self.rings = if natural {
            Vec::new()
        } else {
            pool.live(alive)
        };
        let count: u32 = self.rings.len() as u32;
        self.rings_on = count > 0;
        self.ring_verts = count * RING_VERTS;
        self.bubbles_on = look.bubbles && look.some_bubbles;
        self.bubble_verts = look.bubble_count * BUBBLE_VERTS;
    }
}

/// The layers of the water.
#[derive(Clone, Copy, Debug, PartialEq, Eq, Structural)]
pub enum WaterLayer {
    Bed,
    Bubbles,
    Surface,
    Rings,
}

/// The layers in painting order with their sort keys, in thousandths: the bed
/// lies under the fish, which are painted at zero, and the rest over them.
pub open spec fn layers_of(bubbles: bool, rings: bool) -> Seq<(WaterLayer, i32)> {
    let bed = seq![(WaterLayer::Bed, -1000i32)];
    let air = if bubbles {
        seq![(WaterLayer::Bubbles, 500i32)]
    } else {
        Seq::empty()
    };
    let surface = seq![(WaterLayer::Surface, 750i32)];
    let marks = if rings {
        seq![(WaterLayer::Rings, 800i32)]
    } else {
        Seq::empty()
    };
    bed + air + surface + marks
}

/// The layers to queue: none of hidden water.
pub fn queue_water(water: bool, bubbles: bool, rings: bool) -> (layers: Vec<(WaterLayer, i32)>)
    ensures
        layers@ == (if water {
            layers_of(bubbles, rings)
        } else {
            Seq::empty()
        }),
{
    let mut layers: Vec<(WaterLayer, i32)> = Vec::new();
    if !water {
        return layers;
    }
    layers.push((WaterLayer::Bed, -1000));
    if bubbles {
        layers.push((WaterLayer::Bubbles, 500));
    }
    layers.push((WaterLayer::Surface, 750));
    if rings {
        layers.push((WaterLayer::Rings, 800));
    }
    assert(layers@ =~= layers_of(bubbles, rings));
    layers
}

/// The fish swim in the water: the bed is painted before them, every other
/// layer after them, and the layers are queued in painting order.
pub proof fn law_fish_are_in_the_water(bubbles: bool, rings: bool, i: int, j: int)
    requires
        0 <= i < j < layers_of(bubbles, rings).len(),
    ensures
        layers_of(bubbles, rings)[i].1 < layers_of(bubbles, rings)[j].1,
        layers_of(bubbles, rings)[0].0 == WaterLayer::Bed,
        layers_of(bubbles, rings)[0].1 < 0,
        layers_of(bubbles, rings)[j].1 > 0,
{
}

/// The name of a layer's pipeline in a style.
pub fn pipeline_label(layer: WaterLayer, style: WaterStyle) -> (name: &'static str)
    ensures
        name@ == (match (layer, style) {
            (WaterLayer::Bed, WaterStyle::Natural) => "fish_water_pipeline"@,
            (WaterLayer::Bed, WaterStyle::Sketch) => "fish_water_sketch_pipeline"@,
            (WaterLayer::Bed, WaterStyle::Glossy) => "fish_water_glossy_pipeline"@,
            (WaterLayer::Surface, WaterStyle::Natural) => "fish_water_surface_pipeline"@,
            (WaterLayer::Surface, WaterStyle::Sketch) => "fish_water_surface_sketch_pipeline"@,
            (WaterLayer::Surface, WaterStyle::Glossy) => "fish_water_surface_glossy_pipeline"@,
            (WaterLayer::Bubbles, WaterStyle::Natural) => "fish_bubble_pipeline"@,
            (WaterLayer::Bubbles, WaterStyle::Sketch) => "fish_bubble_sketch_pipeline"@,
            (WaterLayer::Bubbles, WaterStyle::Glossy) => "fish_bubble_glossy_pipeline"@,
            (WaterLayer::Rings, _) => "fish_ring_pipeline"@,
        }),
{
    match (layer, style) {
        (WaterLayer::Bed, WaterStyle::Natural) => "fish_water_pipeline",
        (WaterLayer::Bed, WaterStyle::Sketch) => "fish_water_sketch_pipeline",
        (WaterLayer::Bed, WaterStyle::Glossy) => "fish_water_glossy_pipeline",
        (WaterLayer::Surface, WaterStyle::Natural) => "fish_water_surface_pipeline",
        (WaterLayer::Surface, WaterStyle::Sketch) => "fish_water_surface_sketch_pipeline",
        (WaterLayer::Surface, WaterStyle::Glossy) => "fish_water_surface_glossy_pipeline",
        (WaterLayer::Bubbles, WaterStyle::Natural) => "fish_bubble_pipeline",
        (WaterLayer::Bubbles, WaterStyle::Sketch) => "fish_bubble_sketch_pipeline",
        (WaterLayer::Bubbles, WaterStyle::Glossy) => "fish_bubble_glossy_pipeline",
        (WaterLayer::Rings, _) => "fish_ring_pipeline",
    }
}

/// What to do for one layer's draw.
#[derive(Clone, Copy, Debug, PartialEq, Eq, Structural)]
pub enum LayerDraw {
    /// Draw nothing this frame.
    Skip,
    /// The layer's bindings were not prepared.
    Unbound,
    /// Draw so many vertices.
    Vertices(u32),
}

/// Decide a layer's draw: skipped while it is off or has no vertices.
pub fn layer_draw(on: bool, vertices: u32, bound: bool) -> (draw: LayerDraw)
    ensures
        draw == (if !on || vertices == 0 {
            LayerDraw::Skip
        } else if !bound {
            LayerDraw::Unbound
        } else {
            LayerDraw::Vertices(vertices)
        }),
{
    if !on || vertices == 0 {
        LayerDraw::Skip
    } else if !bound {
        LayerDraw::Unbound
    } else {
        LayerDraw::Vertices(vertices)
    }
}

/// The vertex buffer of the fish: a place and a colour.
pub fn fish_layout() -> (layout: BufferLayout)
    ensures
        layout.holds(
            StepMode::Vertex,
            seq![AttributeFormat::Float32x2, AttributeFormat::Unorm8x4],
            0,
        ),
{
    pair_layout(StepMode::Vertex, AttributeFormat::Float32x2, 8, AttributeFormat::Unorm8x4, 4, 0)
}

/// The water has its bed and its surface; bubbles rise between them and rings lie
/// on top, where there are any.
pub proof fn law_water_has_its_layers(bubbles: bool, rings: bool)
    ensures
        ({
            let layers = layers_of(bubbles, rings);
            &&& layers.contains((WaterLayer::Bed, -1000i32))
            &&& layers.contains((WaterLayer::Surface, 750i32))
            &&& bubbles ==> layers[1] == (WaterLayer::Bubbles, 500i32)
            &&& rings ==> layers.last() == (WaterLayer::Rings, 800i32)
            &&& layers.len() == 2 + (if bubbles {
                1int
            } else {
                0int
            }) + (if rings {
                1int
            } else {
                0int
            })
        }),
{
    let layers = layers_of(bubbles, rings);
    assert(layers[0] == (WaterLayer::Bed, -1000i32));
    if bubbles {
        assert(layers[2] == (WaterLayer::Surface, 750i32));
    } else {
        assert(layers[1] == (WaterLayer::Surface, 750i32));
    }
}

/// The surface is shown with its heights where the water is natural, ripples are on
/// and there is a surface.
pub proof fn law_heights_are_shown_on_natural_water(look: WaterLook, cols: usize, nodes: int)
    ensures
        look.shows_heights(cols, nodes) ==> look.style == WaterStyle::Natural && look.ripples,
        look.style == WaterStyle::Natural && look.ripples && cols >= 2 && nodes >= 1
            ==> look.shows_heights(cols, nodes),
        cols < 2 || nodes <= 0 ==> !look.shows_heights(cols, nodes),
        look.shown() <==> look.water && look.current == ExperimentId::Fish,
{
}

} // verus!
