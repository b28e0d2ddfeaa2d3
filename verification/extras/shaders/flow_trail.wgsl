#import bevy_sprite::mesh2d_view_bindings::view
struct TrailParams {
    origin: vec2<f32>,
    fade_k: f32,
    head_w: f32,
    tail_w: f32,
    glow_r: f32,
    max_points: u32,
    trail_cap: u32,
};
struct Meta {
    pos: vec2<f32>,
    head: u32,
    len: u32,
    color: u32,
    _pad: u32,
};
@group(1) @binding(0) var<uniform> params: TrailParams;
@group(1) @binding(1) var<storage, read> samples: array<vec2<f32>>;
@group(1) @binding(2) var<storage, read> metas: array<Meta>;
struct VertexOutput {
    @builtin(position) clip_position: vec4<f32>,
    @location(0) color: vec4<f32>,
    @location(1) prof: vec2<f32>,
};
const SEG_VERTS: u32 = 6u;
const DOT_VERTS: u32 = 6u;
fn world_of(p: vec2<f32>) -> vec2<f32> {
    return vec2<f32>(p.x - params.origin.x, params.origin.y - p.y);
}
fn sample_at(particle: u32, j: u32, head: u32, len: u32) -> vec2<f32> {
    let jj = min(j, max(len, 1u) - 1u);
    let idx = (head + params.trail_cap - (jj % params.trail_cap)) % params.trail_cap;
    return samples[particle * params.trail_cap + idx];
}
@vertex
fn vertex(@builtin(vertex_index) vi: u32) -> VertexOutput {
    let segs = max(params.max_points, 2u) - 1u;
    let vpp = segs * SEG_VERTS + DOT_VERTS;
    let particle = vi / vpp;
    let r = vi % vpp;
    let m = metas[particle];
    let rgb = unpack4x8unorm(m.color).rgb;
    var world: vec2<f32>;
    var alpha: f32;
    var prof: vec2<f32>;
    if (r < segs * SEG_VERTS) {
        let s = r / SEG_VERTS;
        let corner = r % SEG_VERTS;
        var end: u32;
        var side: f32;
        switch corner {
            case 0u: { end = 0u; side = 1.0; }
            case 1u: { end = 1u; side = 1.0; }
            case 2u: { end = 0u; side = -1.0; }
            case 3u: { end = 1u; side = 1.0; }
            case 4u: { end = 1u; side = -1.0; }
            default: { end = 0u; side = -1.0; }
        }
        let j = s + end;
        let a = sample_at(particle, j, m.head, m.len);
        let older = sample_at(particle, j + 1u, m.head, m.len);
        let newer = sample_at(particle, max(j, 1u) - 1u, m.head, m.len);
        var dir = newer - older;
        if (dot(dir, dir) < 1e-12) {
            dir = vec2<f32>(0.0, 1.0);
        }
        let n = normalize(vec2<f32>(-dir.y, dir.x));
        let t = f32(j) / f32(max(params.max_points - 1u, 1u));
        let half_w = mix(params.head_w, params.tail_w, t);
        world = world_of(a + n * half_w * side);
        alpha = pow(params.fade_k, f32(j));
        prof = vec2<f32>(side, 0.0);
    } else {
        let corner = r - segs * SEG_VERTS;
        var cx: f32;
        var cy: f32;
        switch corner {
            case 0u: { cx = -1.0; cy = -1.0; }
            case 1u: { cx = 1.0; cy = -1.0; }
            case 2u: { cx = -1.0; cy = 1.0; }
            case 3u: { cx = 1.0; cy = -1.0; }
            case 4u: { cx = 1.0; cy = 1.0; }
            default: { cx = -1.0; cy = 1.0; }
        }
        prof = vec2<f32>(cx, cy);
        world = world_of(m.pos + prof * params.glow_r);
        alpha = 1.0;
    }
    var out: VertexOutput;
    out.clip_position = view.clip_from_world * vec4<f32>(world, 0.0, 1.0);
    out.color = vec4<f32>(rgb * alpha, 0.0);
    out.prof = prof;
    return out;
}
@fragment
fn fragment(in: VertexOutput) -> @location(0) vec4<f32> {
    return in.color * max(0.0, 1.0 - length(in.prof));
}
