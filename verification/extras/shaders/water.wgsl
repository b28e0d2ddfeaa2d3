#import bevy_sprite::mesh2d_view_bindings::view
struct WaterParams {
    origin: vec2<f32>,
    bounds: vec2<f32>,
    time: f32,
    caustics: f32,
    sparkle: f32,
    cell: f32,
    cols: u32,
    rows: u32,
};
@group(1) @binding(0) var<uniform> params: WaterParams;
@group(1) @binding(1) var<storage, read> heights: array<f32>;
struct VertexOutput {
    @builtin(position) clip_position: vec4<f32>,
    @location(0) window: vec2<f32>,
};
@vertex
fn vertex(@builtin(vertex_index) vi: u32) -> VertexOutput {
    var corner: vec2<f32>;
    switch vi {
        case 0u: { corner = vec2<f32>(0.0, 0.0); }
        case 1u: { corner = vec2<f32>(1.0, 0.0); }
        case 2u: { corner = vec2<f32>(0.0, 1.0); }
        case 3u: { corner = vec2<f32>(1.0, 0.0); }
        case 4u: { corner = vec2<f32>(1.0, 1.0); }
        default: { corner = vec2<f32>(0.0, 1.0); }
    }
    let window = corner * params.bounds;
    let world = vec2<f32>(window.x - params.origin.x, params.origin.y - window.y);
    var out: VertexOutput;
    out.clip_position = view.clip_from_world * vec4<f32>(world, 0.0, 1.0);
    out.window = window;
    return out;
}
const TAU: f32 = 6.28318530718;
const SUN: vec2<f32> = vec2<f32>(-0.6, -0.8);
fn hash21(p: vec2<f32>) -> f32 {
    var q = fract(p * vec2<f32>(123.34, 345.45));
    q += dot(q, q + 34.345);
    return fract(q.x * q.y);
}
fn hash22(p: vec2<f32>) -> vec2<f32> {
    var p3 = fract(vec3<f32>(p.x, p.y, p.x) * vec3<f32>(0.1031, 0.1030, 0.0973));
    p3 += dot(p3, p3.yzx + 33.33);
    return fract((p3.xx + p3.yz) * p3.zy);
}
fn vnoise(p: vec2<f32>) -> f32 {
    let i = floor(p);
    let f = fract(p);
    let u = f * f * (3.0 - 2.0 * f);
    let a = hash21(i);
    let b = hash21(i + vec2<f32>(1.0, 0.0));
    let c = hash21(i + vec2<f32>(0.0, 1.0));
    let d = hash21(i + vec2<f32>(1.0, 1.0));
    return mix(mix(a, b, u.x), mix(c, d, u.x), u.y);
}
fn caustic_web(uv: vec2<f32>, t: f32) -> f32 {
    let id = floor(uv);
    let f = fract(uv);
    var d1 = 8.0;
    var d2 = 8.0;
    for (var y = -1; y <= 1; y = y + 1) {
        for (var x = -1; x <= 1; x = x + 1) {
            let off = vec2<f32>(f32(x), f32(y));
            let h = hash22(id + off);
            let p = off + 0.5 + 0.4 * sin(t + TAU * h) - f;
            let d = dot(p, p);
            if (d < d1) {
                d2 = d1;
                d1 = d;
            } else if (d < d2) {
                d2 = d;
            }
        }
    }
    let border = sqrt(d2) - sqrt(d1);
    let w = 1.0 - smoothstep(0.02, 0.18, border);
    return w * w;
}
fn height_at(p: vec2<f32>) -> f32 {
    let gx = clamp(p.x / params.cell, 0.0, f32(params.cols - 1u));
    let gy = clamp(p.y / params.cell, 0.0, f32(params.rows - 1u));
    let c0 = u32(gx);
    let r0 = u32(gy);
    let c1 = min(c0 + 1u, params.cols - 1u);
    let r1 = min(r0 + 1u, params.rows - 1u);
    let fx = gx - f32(c0);
    let fy = gy - f32(r0);
    let top = mix(heights[r0 * params.cols + c0], heights[r0 * params.cols + c1], fx);
    let bottom = mix(heights[r1 * params.cols + c0], heights[r1 * params.cols + c1], fx);
    return mix(top, bottom, fy);
}
fn micro_slope(p: vec2<f32>, t: f32) -> vec2<f32> {
    let d1 = vec2<f32>(0.866, 0.5);
    let d2 = vec2<f32>(-0.259, 0.966);
    let d3 = vec2<f32>(-0.643, -0.766);
    var g = d1 * cos(dot(p, d1) * 0.20 + t * 2.1);
    g += d2 * cos(dot(p, d2) * 0.34 + t * 2.9);
    g += d3 * cos(dot(p, d3) * 0.51 - t * 3.7);
    return g;
}
fn srgb_to_linear(c: vec3<f32>) -> vec3<f32> {
    let lo = c / 12.92;
    let hi = pow((c + vec3<f32>(0.055)) / 1.055, vec3<f32>(2.4));
    return select(hi, lo, c <= vec3<f32>(0.04045));
}
@fragment
fn fragment(in: VertexOutput) -> @location(0) vec4<f32> {
    let p = in.window;
    let t = params.time;
    let h = height_at(p);
    let hx = height_at(p + vec2<f32>(params.cell, 0.0));
    let hy = height_at(p + vec2<f32>(0.0, params.cell));
    let rip_grad = vec2<f32>(hx - h, hy - h) / params.cell;
    let micro = micro_slope(p, t);
    let bed_p = p + rip_grad * 40.0 + micro * 2.5;
    let dn = 0.65 * vnoise(bed_p * 0.004 + 3.1) + 0.35 * vnoise(bed_p * 0.012 + 9.7);
    let depth = smoothstep(0.2, 0.8, dn);
    let bed = mix(vec3<f32>(0.012, 0.085, 0.115), vec3<f32>(0.07, 0.26, 0.27), depth);
    let drift = vec2<f32>(t * 3.0, t * 1.9);
    let c1 = caustic_web((bed_p + drift) / 130.0, t * 0.55);
    let c2 = caustic_web((bed_p - drift) / 60.0 + vec2<f32>(13.7, 41.3), t * 0.8 + 2.0);
    let caustic = c1 * (0.4 + 0.6 * c2);
    var col = bed;
    col += vec3<f32>(0.50, 0.80, 0.75) * caustic * params.caustics * (0.15 + 0.55 * depth);
    return vec4<f32>(srgb_to_linear(clamp(col, vec3<f32>(0.0), vec3<f32>(1.0))), 1.0);
}
