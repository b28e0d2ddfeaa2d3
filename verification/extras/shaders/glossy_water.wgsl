#import bevy_sprite::mesh2d_view_bindings::view
struct WaterParams {
    origin: vec2<f32>,
    bounds: vec2<f32>,
    time: f32,
    caustics: f32,
    sparkle: f32,
    cell: f32,
    cols: u32,
    rows: u32,
};
@group(1) @binding(0) var<uniform> params: WaterParams;
struct VertexOutput {
    @builtin(position) clip_position: vec4<f32>,
    @location(0) window: vec2<f32>,
};
@vertex
fn vertex(@builtin(vertex_index) vi: u32) -> VertexOutput {
    var corner: vec2<f32>;
    switch vi {
        case 0u: { corner = vec2<f32>(0.0, 0.0); }
        case 1u: { corner = vec2<f32>(1.0, 0.0); }
        case 2u: { corner = vec2<f32>(0.0, 1.0); }
        case 3u: { corner = vec2<f32>(1.0, 0.0); }
        case 4u: { corner = vec2<f32>(1.0, 1.0); }
        default: { corner = vec2<f32>(0.0, 1.0); }
    }
    let window = corner * params.bounds;
    let world = vec2<f32>(window.x - params.origin.x, params.origin.y - window.y);
    var out: VertexOutput;
    out.clip_position = view.clip_from_world * vec4<f32>(world, 0.0, 1.0);
    out.window = window;
    return out;
}
fn hash21(p: vec2<f32>) -> f32 {
    var q = fract(p * vec2<f32>(123.34, 345.45));
    q += dot(q, q + 34.345);
    return fract(q.x * q.y);
}
fn vnoise(p: vec2<f32>) -> f32 {
    let i = floor(p);
    let f = fract(p);
    let u = f * f * (3.0 - 2.0 * f);
    let a = hash21(i);
    let b = hash21(i + vec2<f32>(1.0, 0.0));
    let c = hash21(i + vec2<f32>(0.0, 1.0));
    let d = hash21(i + vec2<f32>(1.0, 1.0));
    return mix(mix(a, b, u.x), mix(c, d, u.x), u.y);
}
fn srgb_to_linear(c: vec3<f32>) -> vec3<f32> {
    let lo = c / 12.92;
    let hi = pow((c + vec3<f32>(0.055)) / 1.055, vec3<f32>(2.4));
    return select(hi, lo, c <= vec3<f32>(0.04045));
}
@fragment
fn fragment(in: VertexOutput) -> @location(0) vec4<f32> {
    let p = in.window;
    let t = params.time;
    let edge = distance(p, params.origin) / max(0.5 * length(params.bounds), 1.0);
    let g = smoothstep(0.15, 1.05, edge);
    var col = mix(vec3<f32>(0.15, 0.47, 0.55), vec3<f32>(0.09, 0.35, 0.45), g);
    let drift = vec2<f32>(t * 6.0, t * 3.8);
    let n = 0.7 * vnoise((p + drift) * 0.004) + 0.3 * vnoise((p - drift) * 0.009 + 4.7);
    let band1 = 1.0 - smoothstep(0.008, 0.022, abs(n - 0.50));
    let band2 = (1.0 - smoothstep(0.006, 0.018, abs(n - 0.38))) * 0.6;
    col += vec3<f32>(0.30, 0.52, 0.52) * (band1 + band2) * params.caustics * 0.6;
    return vec4<f32>(srgb_to_linear(clamp(col, vec3<f32>(0.0), vec3<f32>(1.0))), 1.0);
}
