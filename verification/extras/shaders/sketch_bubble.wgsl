#import bevy_sprite::mesh2d_view_bindings::view
struct BubbleParams {
    origin: vec2<f32>,
    bounds: vec2<f32>,
    time: f32,
};
@group(1) @binding(0) var<uniform> params: BubbleParams;
struct VertexOutput {
    @builtin(position) clip_position: vec4<f32>,
    @location(0) prof: vec2<f32>,
    @location(1) alpha: f32,
    @location(2) prog: f32,
    @location(3) sv: vec2<f32>,
};
const TAU: f32 = 6.28318530718;
fn pcg(v: u32) -> u32 {
    let s = v * 747796405u + 2891336453u;
    let w = ((s >> ((s >> 28u) + 4u)) ^ s) * 277803737u;
    return (w >> 22u) ^ w;
}
fn hash01(v: u32) -> f32 {
    return f32(pcg(v)) / 4294967295.0;
}
@vertex
fn vertex(@builtin(vertex_index) vi: u32) -> VertexOutput {
    let bubble = vi / 6u;
    let corner = vi % 6u;
    var prof: vec2<f32>;
    switch corner {
        case 0u: { prof = vec2<f32>(-1.0, -1.0); }
        case 1u: { prof = vec2<f32>(1.0, -1.0); }
        case 2u: { prof = vec2<f32>(-1.0, 1.0); }
        case 3u: { prof = vec2<f32>(1.0, -1.0); }
        case 4u: { prof = vec2<f32>(1.0, 1.0); }
        default: { prof = vec2<f32>(-1.0, 1.0); }
    }
    let period = mix(5.0, 11.0, hash01(bubble * 4u + 1u));
    let life = params.time / period + hash01(bubble * 4u + 2u);
    let cycle = u32(floor(life));
    let t = fract(life);
    let seed = bubble * 747u + cycle * 2654435761u;
    let anchor = vec2<f32>(
        hash01(seed ^ 0x68bc21ebu) * params.bounds.x,
        hash01(seed ^ 0x02e5be93u) * params.bounds.y,
    );
    let r_max = mix(1.8, 4.6, hash01(seed ^ 0x967a889bu));
    var r: f32;
    var alpha: f32;
    var prog: f32;
    if (t < 0.85) {
        let rise = t / 0.85;
        r = mix(0.6, r_max, rise);
        alpha = 0.9 * smoothstep(0.0, 0.12, t) * mix(0.5, 1.0, rise);
        prog = 0.0;
    } else {
        let pt = (t - 0.85) / 0.15;
        r = r_max * (1.0 + 2.2 * pt);
        alpha = 0.9 * (1.0 - pt);
        prog = pt;
    }
    let rise = min(t / 0.85, 1.0);
    let fb = f32(bubble);
    let sway = vec2<f32>(
        sin(params.time * 1.7 + fb * 2.39),
        cos(params.time * 1.3 + fb * 5.71),
    ) * (2.5 * rise);
    let centre = anchor + sway;
    let window = centre + prof * r;
    let world = vec2<f32>(window.x - params.origin.x, params.origin.y - window.y);
    var out: VertexOutput;
    out.clip_position = view.clip_from_world * vec4<f32>(world, 0.0, 1.0);
    out.prof = prof;
    out.alpha = alpha;
    out.prog = prog;
    out.sv = vec2<f32>(
        f32(seed & 1023u) * 0.317,
        f32((seed >> 10u) & 1023u) * 0.173,
    );
    return out;
}
fn hash21(p: vec2<f32>) -> f32 {
    var q = fract(p * vec2<f32>(123.34, 345.45));
    q += dot(q, q + 34.345);
    return fract(q.x * q.y);
}
fn vnoise(p: vec2<f32>) -> f32 {
    let i = floor(p);
    let f = fract(p);
    let u = f * f * (3.0 - 2.0 * f);
    let a = hash21(i);
    let b = hash21(i + vec2<f32>(1.0, 0.0));
    let c = hash21(i + vec2<f32>(0.0, 1.0));
    let d = hash21(i + vec2<f32>(1.0, 1.0));
    return mix(mix(a, b, u.x), mix(c, d, u.x), u.y);
}
fn srgb_to_linear(c: vec3<f32>) -> vec3<f32> {
    let lo = c / 12.92;
    let hi = pow((c + vec3<f32>(0.055)) / 1.055, vec3<f32>(2.4));
    return select(hi, lo, c <= vec3<f32>(0.04045));
}
@fragment
fn fragment(in: VertexOutput) -> @location(0) vec4<f32> {
    let d = length(in.prof);
    let dir = in.prof / max(d, 0.001);
    let ring = 1.0 - smoothstep(0.10, 0.20, abs(d - 0.74));
    let e = in.prog * 0.8;
    let cover = smoothstep(e, e + 0.22, vnoise(dir * 2.6 + in.sv));
    let solid = 1.0 - step(0.001, in.prog);
    let arc_band = 1.0 - smoothstep(0.07, 0.15, abs(d - 0.46));
    let arc_side = smoothstep(0.72, 0.92, dot(dir, vec2<f32>(-0.707, -0.707)));
    let arc = arc_band * arc_side * solid;
    let fill = (1.0 - smoothstep(0.0, 0.74, d)) * 0.05 * solid;
    let a_ring = ring * cover * 0.9;
    let a_arc = arc * 0.8;
    let a_fill = fill;
    let alpha = clamp(a_ring + a_arc + a_fill, 0.0, 1.0) * in.alpha;
    var rgb = srgb_to_linear(vec3<f32>(0.97, 1.0, 0.99)) * (a_ring + a_arc);
    rgb += srgb_to_linear(vec3<f32>(0.62, 0.86, 0.88)) * a_fill;
    return vec4<f32>(rgb * in.alpha, alpha);
}
