#import bevy_sprite::mesh2d_view_bindings::view
@group(1) @binding(0) var boid_texture: texture_2d<f32>;
@group(1) @binding(1) var boid_sampler: sampler;
const QUAD_MIN = vec2<f32>(-5.0, -6.0);
const QUAD_SIZE = vec2<f32>(20.0, 12.0);
struct Vertex {
    @builtin(vertex_index) index: u32,
    @builtin(instance_index) instance: u32,
    @location(0) i_pos: vec2<f32>,
    @location(1) i_rot: vec2<f32>,
};
struct VertexOutput {
    @builtin(position) clip_position: vec4<f32>,
    @location(0) uv: vec2<f32>,
};
@vertex
fn vertex(vertex: Vertex) -> VertexOutput {
    var out: VertexOutput;
    let corner = vec2<f32>(
        f32(vertex.index == 1u || vertex.index == 2u || vertex.index == 4u),
        f32(vertex.index == 2u || vertex.index == 4u || vertex.index == 5u),
    );
    let local = QUAD_MIN + corner * QUAD_SIZE;
    let world = vec2<f32>(
        vertex.i_rot.x * local.x - vertex.i_rot.y * local.y,
        vertex.i_rot.y * local.x + vertex.i_rot.x * local.y,
    ) + vertex.i_pos;
    let z = 1.0 - f32(vertex.instance) * 2e-7;
    out.clip_position = view.clip_from_world * vec4<f32>(world, z, 1.0);
    out.uv = vec2<f32>(corner.x, 1.0 - corner.y);
    return out;
}
@fragment
fn fragment(in: VertexOutput) -> @location(0) vec4<f32> {
    let color = textureSample(boid_texture, boid_sampler, in.uv);
    if color.a < 0.5 {
        discard;
    }
    return vec4<f32>(color.rgb / color.a, 1.0);
}
