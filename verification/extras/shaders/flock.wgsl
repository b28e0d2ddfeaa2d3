#import bevy_sprite::mesh2d_view_bindings::view
struct Vertex {
    @builtin(instance_index) instance: u32,
    @location(0) position: vec3<f32>,
    @location(1) color: u32,
    @location(2) i_pos: vec2<f32>,
    @location(3) i_rot: vec2<f32>,
};
struct VertexOutput {
    @builtin(position) clip_position: vec4<f32>,
    @location(0) color: vec4<f32>,
};
@vertex
fn vertex(vertex: Vertex) -> VertexOutput {
    var out: VertexOutput;
    let world = vec2<f32>(
        vertex.i_rot.x * vertex.position.x - vertex.i_rot.y * vertex.position.y,
        vertex.i_rot.y * vertex.position.x + vertex.i_rot.x * vertex.position.y,
    ) + vertex.i_pos;
    let z = 1.0 - f32(vertex.instance) * 2e-7 - (0.1 - vertex.position.z) * 1e-7;
    out.clip_position = view.clip_from_world * vec4<f32>(world, z, 1.0);
    out.color = vec4<f32>((vec4<u32>(vertex.color) >> vec4<u32>(0u, 8u, 16u, 24u)) & vec4<u32>(255u)) / 255.0;
    return out;
}
@fragment
fn fragment(in: VertexOutput) -> @location(0) vec4<f32> {
    return in.color;
}
