//! How the flock is drawn: the boid's shape and the one instanced draw.

use vstd::prelude::*;

use crate::layout::{pair_layout, AttributeFormat, BufferLayout, StepMode};
use crate::oracle::{answered2, lemma_answer2, single_valued2};

verus! {

/// Which simulation feeds the draw.
#[derive(Clone, Copy, Debug, PartialEq, Eq, Structural)]
pub enum SimMode {
    Gpu,
    Cpu,
}

/// How a boid reaches the screen: as a textured quad or as triangles.
#[derive(Clone, Copy, Debug, PartialEq, Eq, Structural)]
pub enum RenderStyle {
    Quads,
    Geometry,
}

/// The simulation that the arguments select.
pub fn sim_mode(cpu: bool) -> (mode: SimMode)
    ensures
        mode == (if cpu {
            SimMode::Cpu
        } else {
            SimMode::Gpu
        }),
{
    if cpu {
        SimMode::Cpu
    } else {
        SimMode::Gpu
    }
}

/// The corners of the boid's round body.
pub const SEGMENTS: u32 = 8;

/// The vertices of the boid's mesh: the body's centre, the corners of its rim,
/// and the heading triangle.
pub const MESH_VERTICES: u32 = 12;

/// The indices of the boid's mesh: a fan for the body, which closes on the
/// rim's first corner, then the triangle, which draws over it.
pub open spec fn mesh_index(k: int) -> int {
    if k < 3 * SEGMENTS {
        if k % 3 == 0 {
            0
        } else if k % 3 == 1 {
            k / 3 + 1
        } else if k / 3 == SEGMENTS - 1 {
            1
        } else {
            k / 3 + 2
        }
    } else {
        SEGMENTS + 1 + (k - 3 * SEGMENTS)
    }
}

/// The indices of the boid's mesh.
pub fn boid_mesh_indices() -> (indices: Vec<u32>)
    ensures
        indices.len() == 3 * SEGMENTS + 3,
        forall|k: int|
            0 <= k < indices.len() ==> #[trigger] indices[k] == mesh_index(k) && indices[k]
                < MESH_VERTICES,
{
    let mut indices: Vec<u32> = Vec::new();
    let mut i: u32 = 1;
    while i <= SEGMENTS
        invariant
            1 <= i <= SEGMENTS + 1,
            indices.len() == 3 * (i - 1),
            forall|k: int|
                0 <= k < indices.len() ==> #[trigger] indices[k] == mesh_index(k) && indices[k]
                    < MESH_VERTICES,
        decreases SEGMENTS + 1 - i,
    {
        indices.push(0);
        indices.push(i);
        indices.push(
            if i == SEGMENTS {
                1
            } else {
                i + 1
            },
        );
        i += 1;
    }
    let base: u32 = SEGMENTS + 1;
    indices.push(base);
    indices.push(base + 1);
    indices.push(base + 2);
    indices
}

/// The size of the baked boid texture, in texels and in pixels.
pub const TEXTURE_WIDTH: i32 = 20;

pub const TEXTURE_HEIGHT: i32 = 12;

/// The lower left corner of the boid's quad, in pixels.
pub const QUAD_MIN_X: i32 = -5;

pub const QUAD_MIN_Y: i32 = -6;

/// The samples of a texel, eight along each side.
pub const SAMPLES: i32 = 64;

/// The x of a sample, in sixteenths of a pixel: the middle of its share of the
/// texel.
pub open spec fn sample_x(col: int, sub: int) -> int {
    16 * (QUAD_MIN_X + col) + 2 * sub + 1
}

/// The y of a sample, in sixteenths of a pixel. Texture rows run down, the
/// boid's own y runs up.
pub open spec fn sample_y(row: int, sub: int) -> int {
    16 * (QUAD_MIN_Y + TEXTURE_HEIGHT - row) - 2 * sub - 1
}

/// A sample, in sixteenths of a pixel, lies in the heading triangle with the
/// corners (0, -5), (14, 0) and (0, 5).
pub open spec fn in_heading_triangle(x: int, y: int) -> bool {
    &&& 14 * (y + 80) - 5 * x >= 0
    &&& 5 * (224 - x) - 14 * y >= 0
    &&& x >= 0
}

/// Whether a sample lies in the heading triangle.
pub fn heading_triangle_holds(x: i32, y: i32) -> (inside: bool)
    requires
        -1000 <= x <= 1000,
        -1000 <= y <= 1000,
    ensures
        inside == in_heading_triangle(x as int, y as int),
{
    14 * (y + 80) - 5 * x >= 0 && 5 * (224 - x) - 14 * y >= 0 && x >= 0
}

/// How many of the first `k` samples of a texel are white.
pub open spec fn white_samples(col: int, row: int, k: int) -> int
    decreases k,
{
    if k <= 0 {
        0
    } else {
        let (x, y) = (sample_x(col, (k - 1) % 8), sample_y(row, (k - 1) / 8));
        white_samples(col, row, k - 1) + if in_heading_triangle(x, y) {
            1int
        } else {
            0int
        }
    }
}

/// How many of the first `k` samples of a texel the boid covers, where `body`
/// tells whether a sample lies in its round body.
pub open spec fn covered_samples<F: Fn(i32, i32) -> bool>(body: F, col: int, row: int, k: int) -> int
    decreases k,
{
    if k <= 0 {
        0
    } else {
        let (x, y) = (sample_x(col, (k - 1) % 8), sample_y(row, (k - 1) / 8));
        covered_samples(body, col, row, k - 1) + if in_heading_triangle(x, y) || body.ensures(
            (x as i32, y as i32),
            true,
        ) {
            1int
        } else {
            0int
        }
    }
}

/// Where the first `k` samples of a texel are not white, `body` has told
/// whether they lie in the round body.
pub open spec fn coverage_made<F: Fn(i32, i32) -> bool>(body: F, col: int, row: int, k: int) -> bool
    decreases k,
{
    k > 0 ==> {
        let (x, y) = (sample_x(col, (k - 1) % 8), sample_y(row, (k - 1) / 8));
        &&& coverage_made(body, col, row, k - 1)
        &&& in_heading_triangle(x, y) || answered2(body, x as i32, y as i32)
    }
}

/// A boid covers at least what it paints white, and at most all samples.
pub proof fn law_white_is_covered<F: Fn(i32, i32) -> bool>(body: F, col: int, row: int, k: int)
    requires
        0 <= k,
    ensures
        0 <= white_samples(col, row, k) <= covered_samples(body, col, row, k) <= k,
    decreases k,
{
    if k > 0 {
        law_white_is_covered(body, col, row, k - 1);
    }
}

/// Bake the boid's shape: for every texel, row by row from the top, how many of
/// its 64 samples the boid covers and how many of them are white. The white
/// triangle lies over the red body.
pub fn boid_coverage<F: Fn(i32, i32) -> bool>(body: F) -> (texels: Vec<(u32, u32)>)
    requires
        single_valued2(body),
        forall|x: i32, y: i32| body.requires((x, y)),
    ensures
        texels.len() == TEXTURE_WIDTH * TEXTURE_HEIGHT,
        forall|row: int, col: int|
            #![trigger covered_samples(body, col, row, 64)]
            0 <= row < TEXTURE_HEIGHT && 0 <= col < TEXTURE_WIDTH ==> texels[row * TEXTURE_WIDTH
                + col].0 == covered_samples(body, col, row, 64) && texels[row * TEXTURE_WIDTH
                + col].1 == white_samples(col, row, 64),
        forall|row: int, col: int|
            0 <= row < TEXTURE_HEIGHT && 0 <= col < TEXTURE_WIDTH ==> #[trigger] coverage_made(
                body,
                col,
                row,
                64,
            ),
{
    let mut texels: Vec<(u32, u32)> = Vec::new();
    let mut row: i32 = 0;
    while row < TEXTURE_HEIGHT
        invariant
            0 <= row <= TEXTURE_HEIGHT,
            single_valued2(body),
            forall|x: i32, y: i32| body.requires((x, y)),
            texels.len() == row * TEXTURE_WIDTH,
            forall|r: int, c: int|
                #![trigger covered_samples(body, c, r, 64)]
                0 <= r < row && 0 <= c < TEXTURE_WIDTH ==> texels[r * TEXTURE_WIDTH + c].0
                    == covered_samples(body, c, r, 64) && texels[r * TEXTURE_WIDTH + c].1
                    == white_samples(c, r, 64),
            forall|r: int, c: int|
                0 <= r < row && 0 <= c < TEXTURE_WIDTH ==> #[trigger] coverage_made(body, c, r, 64),
        decreases TEXTURE_HEIGHT - row,
    {
        let mut col: i32 = 0;
        while col < TEXTURE_WIDTH
            invariant
                0 <= row < TEXTURE_HEIGHT,
                0 <= col <= TEXTURE_WIDTH,
                single_valued2(body),
                forall|x: i32, y: i32| body.requires((x, y)),
                texels.len() == row * TEXTURE_WIDTH + col,
                forall|r: int, c: int|
                    #![trigger covered_samples(body, c, r, 64)]
                    0 <= c < TEXTURE_WIDTH && (0 <= r < row || (r == row && c < col)) ==> texels[r
                        * TEXTURE_WIDTH + c].0 == covered_samples(body, c, r, 64) && texels[r
                        * TEXTURE_WIDTH + c].1 == white_samples(c, r, 64),
                forall|r: int, c: int|
                    0 <= c < TEXTURE_WIDTH && (0 <= r < row || (r == row && c < col))
                        ==> #[trigger] coverage_made(body, c, r, 64),
            decreases TEXTURE_WIDTH - col,
        {
            let mut covered: u32 = 0;
            let mut white: u32 = 0;
            let mut k: i32 = 0;
            while k < SAMPLES
                invariant
                    0 <= row < TEXTURE_HEIGHT,
                    0 <= col < TEXTURE_WIDTH,
                    0 <= k <= 64,
                    single_valued2(body),
                    forall|x: i32, y: i32| body.requires((x, y)),
                    covered == covered_samples(body, col as int, row as int, k as int),
                    white == white_samples(col as int, row as int, k as int),
                    white <= covered <= k,
                    coverage_made(body, col as int, row as int, k as int),
                decreases 64 - k,
            {
                let x: i32 = 16 * (QUAD_MIN_X + col) + 2 * (k % 8) + 1;
                let y: i32 = 16 * (QUAD_MIN_Y + TEXTURE_HEIGHT - row) - 2 * (k / 8) - 1;
                if heading_triangle_holds(x, y) {
                    covered += 1;
                    white += 1;
                } else {
                    let inside: bool = body(x, y);
                    proof {
                        lemma_answer2(body, x, y, inside);
                    }
                    if inside {
                        covered += 1;
                    }
                }
                k += 1;
            }
            let ghost before = texels@;
            texels.push((covered, white));
            proof {
                assert forall|r: int, c: int|
                    #![trigger covered_samples(body, c, r, 64)]
                    0 <= c < TEXTURE_WIDTH && (0 <= r < row || (r == row && c < col + 1)) implies
                    texels[r * TEXTURE_WIDTH + c].0 == covered_samples(body, c, r, 64) && texels[r
                    * TEXTURE_WIDTH + c].1 == white_samples(c, r, 64) by {
                    let at = r * TEXTURE_WIDTH + c;
                    if at < before.len() {
                        assert(texels@[at] == before[at]);
                    }
                }
            }
            col += 1;
        }
        row += 1;
    }
    texels
}

/// The render records in drawing order: reversed, so that the draw runs front
/// to back while later boids still lie on top.
pub fn extract_flock<I: Copy>(records: &Vec<I>) -> (drawn: Vec<I>)
    ensures
        drawn@ == records@.reverse(),
{
    let mut drawn: Vec<I> = Vec::new();
    let n: usize = records.len();
    let mut k: usize = 0;
    while k < n
        invariant
            k <= n,
            n == records.len(),
            drawn.len() == k,
            forall|j: int| 0 <= j < k ==> #[trigger] drawn[j] == records[n - 1 - j],
        decreases n - k,
    {
        drawn.push(records[n - 1 - k]);
        k += 1;
    }
    assert(drawn@ =~= records@.reverse());
    drawn
}

/// What to do for the flock's draw.
#[derive(Clone, Copy, Debug, PartialEq, Eq, Structural)]
pub enum FlockDraw {
    /// Draw nothing this frame.
    Skip,
    /// The instances of the processor's simulation were not uploaded.
    NoInstances,
    /// The boid's mesh was not uploaded.
    NoMesh,
    /// Draw so many quads of six vertices.
    Quads(u32),
    /// Draw the indexed mesh so many times.
    Geometry(u32),
}

/// How many instances the draw has: from the card's simulation where it feeds
/// it, else the uploaded ones. `None` where the processor's are missing.
pub open spec fn draw_count(mode: SimMode, gpu: Option<u32>, uploaded: Option<u32>) -> Option<u32> {
    match mode {
        SimMode::Gpu => match gpu {
            Some(count) => Some(count),
            None => Some(0),
        },
        SimMode::Cpu => uploaded,
    }
}

/// Decide the flock's draw. `gpu` is the card's count once its buffers and
/// parameters exist, `uploaded` the processor's once uploaded; `texture` and
/// `mesh` tell whether the quad's texture and the mesh are there.
pub fn flock_draw(
    mode: SimMode,
    style: RenderStyle,
    gpu: Option<u32>,
    uploaded: Option<u32>,
    texture: bool,
    mesh: bool,
) -> (draw: FlockDraw)
    ensures
        draw == (match draw_count(mode, gpu, uploaded) {
            None => FlockDraw::NoInstances,
            Some(count) => if count == 0 {
                FlockDraw::Skip
            } else {
                match style {
                    RenderStyle::Quads => if texture {
                        FlockDraw::Quads(count)
                    } else {
                        FlockDraw::Skip
                    },
                    RenderStyle::Geometry => if mesh {
                        FlockDraw::Geometry(count)
                    } else {
                        FlockDraw::NoMesh
                    },
                }
            },
        }),
{
    let count: u32 = match mode {
        SimMode::Gpu => match gpu {
            Some(count) => count,
            None => {
                return FlockDraw::Skip;
            },
        },
        SimMode::Cpu => match uploaded {
            Some(count) => count,
            None => {
                return FlockDraw::NoInstances;
            },
        },
    };
    if count == 0 {
        return FlockDraw::Skip;
    }
    match style {
        RenderStyle::Quads => {
            if texture {
                FlockDraw::Quads(count)
            } else {
                FlockDraw::Skip
            }
        },
        RenderStyle::Geometry => {
            if mesh {
                FlockDraw::Geometry(count)
            } else {
                FlockDraw::NoMesh
            }
        },
    }
}

/// Whether there is a flock to queue a draw for; `mode` arrives with the first
/// extract.
pub fn queue_flock(mode: Option<SimMode>, gpu: Option<u32>, uploaded: usize) -> (any: bool)
    ensures
        any == (match mode {
            Some(SimMode::Gpu) => gpu matches Some(n) && n > 0,
            Some(SimMode::Cpu) => uploaded > 0,
            None => false,
        }),
{
    match mode {
        Some(SimMode::Gpu) => match gpu {
            Some(n) => n > 0,
            None => false,
        },
        Some(SimMode::Cpu) => uploaded > 0,
        None => false,
    }
}

/// What is queued is not skipped for want of boids.
pub proof fn law_queued_flock_has_boids(mode: SimMode, gpu: Option<u32>, uploaded: u32)
    ensures
        (match mode {
            SimMode::Gpu => gpu matches Some(n) && n > 0,
            SimMode::Cpu => uploaded > 0,
        }) <==> (draw_count(mode, gpu, Some(uploaded)) matches Some(n) && n > 0),
{
}

/// The vertex buffers of the flock's pipeline: for quads only the instance
/// records, whose corners come from the vertex number; for triangles the mesh
/// and, behind it, the instance records.
pub fn flock_layouts(quads: bool) -> (layouts: Vec<BufferLayout>)
    ensures
        layouts.len() == (if quads {
            1int
        } else {
            2int
        }),
        quads ==> layouts[0].holds(
            StepMode::Instance,
            seq![AttributeFormat::Float32x2, AttributeFormat::Float32x2],
            0,
        ),
        !quads ==> layouts[0].holds(
            StepMode::Vertex,
            seq![AttributeFormat::Float32x3, AttributeFormat::Uint32],
            0,
        ),
        !quads ==> layouts[1].holds(
            StepMode::Instance,
            seq![AttributeFormat::Float32x2, AttributeFormat::Float32x2],
            2,
        ),
{
    let mut layouts: Vec<BufferLayout> = Vec::new();
    let point: AttributeFormat = AttributeFormat::Float32x2;
    if quads {
        layouts.push(pair_layout(StepMode::Instance, point, 8, point, 8, 0));
    } else {
        layouts.push(
            pair_layout(
                StepMode::Vertex,
                AttributeFormat::Float32x3,
                12,
                AttributeFormat::Uint32,
                4,
                0,
            ),
        );
        layouts.push(pair_layout(StepMode::Instance, point, 8, point, 8, 2));
    }
    layouts
}

/// A boid's mesh is a fan of eight triangles round its middle, which closes on its
/// first rim vertex, and one triangle more of three vertices of its own.
pub proof fn law_boids_are_a_fan_and_a_head(i: int)
    requires
        0 <= i < 8,
    ensures
        mesh_index(3 * i) == 0,
        mesh_index(3 * i + 1) == 1 + i,
        mesh_index(3 * i + 2) == 1 + (i + 1) % 8,
        mesh_index(24) == 9,
        mesh_index(25) == 10,
        mesh_index(26) == 11,
{
}

/// The samples of the texture stand an eighth of a unit apart, eight each way in
/// every texel, from the left edge to the right and from the top down, centred on
/// the boid's axis.
pub proof fn law_samples_fill_the_texture(col: int, row: int, sub: int)
    ensures
        sample_x(0, 0) == -79,
        sample_x(col, sub + 1) == sample_x(col, sub) + 2,
        sample_x(col + 1, 0) == sample_x(col, 7) + 2,
        sample_x(19, 7) == 239,
        sample_y(0, 0) == 95,
        sample_y(row, sub + 1) == sample_y(row, sub) - 2,
        sample_y(row + 1, 0) == sample_y(row, 7) - 2,
        sample_y(11, 7) == -95,
{
}

/// The head points ahead: its triangle goes from five units to either side of the
/// middle to fourteen ahead of it, and is the same on both sides.
pub proof fn law_heads_point_ahead(x: int, y: int)
    ensures
        in_heading_triangle(0, 80),
        in_heading_triangle(0, -80),
        in_heading_triangle(224, 0),
        in_heading_triangle(x, y) <==> in_heading_triangle(x, 0 - y),
        in_heading_triangle(x, y) ==> 0 <= x <= 224 && -80 <= y <= 80,
        in_heading_triangle(x, y) <==> x >= 0 && 14 * y <= 5 * (224 - x) && -14 * y <= 5 * (224
            - x),
{
}

/// Where the body covers nothing only the head does, and where it covers all so does
/// the boid.
pub proof fn law_cover_is_body_or_head<F: Fn(i32, i32) -> bool>(
    body: F,
    col: int,
    row: int,
    k: int,
)
    requires
        k >= 0,
    ensures
        (forall|x: i32, y: i32| !#[trigger] body.ensures((x, y), true)) ==> covered_samples(
            body,
            col,
            row,
            k,
        ) == white_samples(col, row, k),
        (forall|x: i32, y: i32| #[trigger] body.ensures((x, y), true)) ==> covered_samples(
            body,
            col,
            row,
            k,
        ) == k,
    decreases k,
{
    if k > 0 {
        law_cover_is_body_or_head(body, col, row, k - 1);
    }
}

} // verus!
