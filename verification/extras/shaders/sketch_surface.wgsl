#import bevy_sprite::mesh2d_view_bindings::view
struct WaterParams {
    origin: vec2<f32>,
    bounds: vec2<f32>,
    time: f32,
    caustics: f32,
    sparkle: f32,
    cell: f32,
    cols: u32,
    rows: u32,
};
@group(1) @binding(0) var<uniform> params: WaterParams;
struct VertexOutput {
    @builtin(position) clip_position: vec4<f32>,
    @location(0) window: vec2<f32>,
};
@vertex
fn vertex(@builtin(vertex_index) vi: u32) -> VertexOutput {
    var corner: vec2<f32>;
    switch vi {
        case 0u: { corner = vec2<f32>(0.0, 0.0); }
        case 1u: { corner = vec2<f32>(1.0, 0.0); }
        case 2u: { corner = vec2<f32>(0.0, 1.0); }
        case 3u: { corner = vec2<f32>(1.0, 0.0); }
        case 4u: { corner = vec2<f32>(1.0, 1.0); }
        default: { corner = vec2<f32>(0.0, 1.0); }
    }
    let window = corner * params.bounds;
    let world = vec2<f32>(window.x - params.origin.x, params.origin.y - window.y);
    var out: VertexOutput;
    out.clip_position = view.clip_from_world * vec4<f32>(world, 0.0, 1.0);
    out.window = window;
    return out;
}
fn hash21(p: vec2<f32>) -> f32 {
    var q = fract(p * vec2<f32>(123.34, 345.45));
    q += dot(q, q + 34.345);
    return fract(q.x * q.y);
}
fn hash22(p: vec2<f32>) -> vec2<f32> {
    var p3 = fract(vec3<f32>(p.x, p.y, p.x) * vec3<f32>(0.1031, 0.1030, 0.0973));
    p3 += dot(p3, p3.yzx + 33.33);
    return fract((p3.xx + p3.yz) * p3.zy);
}
fn twinkle(p: vec2<f32>, t: f32, density: f32) -> f32 {
    let cellp = p / 56.0;
    let id = floor(cellp);
    let clock = t * 0.8 + hash21(id) * 7.0;
    let bucket = floor(clock);
    let phase = fract(clock);
    let h = hash21(id + vec2<f32>(bucket * 13.7, bucket * 5.3));
    let lit = step(1.0 - 0.22 * density, h);
    let held = step(abs(phase - 0.5), 0.32);
    let pos = id + vec2<f32>(0.2) + 0.6 * hash22(id + vec2<f32>(bucket * 31.7, bucket * 17.3));
    let dd = cellp - pos;
    let star = 1.0 - smoothstep(0.10, 0.16, abs(dd.x) + abs(dd.y));
    return lit * held * star;
}
fn srgb_to_linear(c: vec3<f32>) -> vec3<f32> {
    let lo = c / 12.92;
    let hi = pow((c + vec3<f32>(0.055)) / 1.055, vec3<f32>(2.4));
    return select(hi, lo, c <= vec3<f32>(0.04045));
}
@fragment
fn fragment(in: VertexOutput) -> @location(0) vec4<f32> {
    let spark = twinkle(in.window, params.time, params.sparkle);
    let a_wash = 0.06;
    let a_spark = spark * 0.60;
    let alpha = clamp(a_wash + a_spark, 0.0, 0.9);
    var rgb = srgb_to_linear(vec3<f32>(0.10, 0.34, 0.40)) * a_wash;
    rgb += srgb_to_linear(vec3<f32>(0.97, 1.0, 0.99)) * a_spark;
    return vec4<f32>(rgb, alpha);
}
