#import bevy_sprite::mesh2d_view_bindings::view
struct RingParams {
    origin: vec2<f32>,
    bounds: vec2<f32>,
    time: f32,
    style: u32,
};
struct Ring {
    pos: vec2<f32>,
    born: f32,
    amp: f32,
    seed: u32,
    kind: u32,
};
@group(1) @binding(0) var<uniform> params: RingParams;
@group(1) @binding(1) var<storage, read> rings: array<Ring>;
struct VertexOutput {
    @builtin(position) clip_position: vec4<f32>,
    @location(0) local: vec2<f32>,
    @location(1) shape: vec4<f32>,
    @location(2) sv: vec2<f32>,
};
fn pcg(v: u32) -> u32 {
    let s = v * 747796405u + 2891336453u;
    let w = ((s >> ((s >> 28u) + 4u)) ^ s) * 277803737u;
    return (w >> 22u) ^ w;
}
fn hash01(v: u32) -> f32 {
    return f32(pcg(v)) / 4294967295.0;
}
@vertex
fn vertex(@builtin(vertex_index) vi: u32) -> VertexOutput {
    let index = vi / 6u;
    let corner = vi % 6u;
    var prof: vec2<f32>;
    switch corner {
        case 0u: { prof = vec2<f32>(-1.0, -1.0); }
        case 1u: { prof = vec2<f32>(1.0, -1.0); }
        case 2u: { prof = vec2<f32>(-1.0, 1.0); }
        case 3u: { prof = vec2<f32>(1.0, -1.0); }
        case 4u: { prof = vec2<f32>(1.0, 1.0); }
        default: { prof = vec2<f32>(-1.0, 1.0); }
    }
    let ring = rings[index];
    let life = select(select(0.9, 1.6, ring.kind == 1u), 2.6, ring.kind == 2u);
    let age = params.time - ring.born;
    let a01 = age / life;
    var out: VertexOutput;
    if (age < 0.0 || a01 >= 1.0) {
        out.clip_position = vec4<f32>(2.0, 2.0, 2.0, 1.0);
        out.local = vec2<f32>(0.0);
        out.shape = vec4<f32>(0.0);
        out.sv = vec2<f32>(0.0);
        return out;
    }
    var r_max: f32;
    var radius: f32;
    var w: f32;
    var erosion: f32;
    let ease = 1.0 - (1.0 - a01) * (1.0 - a01);
    if (ring.kind == 0u) {
        r_max = 8.0 + 18.0 * ring.amp;
        radius = mix(3.0, r_max, ease);
        w = 1.4;
        erosion = 0.15;
    } else if (ring.kind == 1u) {
        r_max = 26.0 + 30.0 * ring.amp;
        radius = mix(4.0, r_max, ease);
        w = 1.8;
        erosion = 0.05;
    } else {
        r_max = 16.0 + 22.0 * hash01(ring.seed);
        radius = r_max * (0.92 + 0.08 * a01);
        w = 1.2;
        erosion = 0.42;
    }
    let half = radius * 1.16 + w + 4.0;
    let window = ring.pos + prof * half;
    let world = vec2<f32>(window.x - params.origin.x, params.origin.y - window.y);
    out.clip_position = view.clip_from_world * vec4<f32>(world, 0.0, 1.0);
    out.local = prof * half;
    out.shape = vec4<f32>(radius, a01, w, erosion);
    out.sv = vec2<f32>(
        f32(ring.seed & 1023u) * 0.317,
        f32((ring.seed >> 10u) & 1023u) * 0.173,
    );
    return out;
}
fn hash21(p: vec2<f32>) -> f32 {
    var q = fract(p * vec2<f32>(123.34, 345.45));
    q += dot(q, q + 34.345);
    return fract(q.x * q.y);
}
fn vnoise(p: vec2<f32>) -> f32 {
    let i = floor(p);
    let f = fract(p);
    let u = f * f * (3.0 - 2.0 * f);
    let a = hash21(i);
    let b = hash21(i + vec2<f32>(1.0, 0.0));
    let c = hash21(i + vec2<f32>(0.0, 1.0));
    let d = hash21(i + vec2<f32>(1.0, 1.0));
    return mix(mix(a, b, u.x), mix(c, d, u.x), u.y);
}
fn srgb_to_linear(c: vec3<f32>) -> vec3<f32> {
    let lo = c / 12.92;
    let hi = pow((c + vec3<f32>(0.055)) / 1.055, vec3<f32>(2.4));
    return select(hi, lo, c <= vec3<f32>(0.04045));
}
@fragment
fn fragment(in: VertexOutput) -> @location(0) vec4<f32> {
    let radius = in.shape.x;
    let a01 = in.shape.y;
    let w = in.shape.z;
    let erosion = in.shape.w;
    let rad = length(in.local);
    let dir = in.local / max(rad, 0.001);
    var alpha: f32;
    var color: vec3<f32>;
    if (params.style == 1u) {
        let wob = (vnoise(dir * 1.7 + in.sv) - 0.5) * 0.22 * radius;
        let stroke = 1.0 - smoothstep(w, w + 1.4, abs(rad - (radius + wob)));
        let e = erosion + a01 * a01 * 0.65;
        let cover = smoothstep(e, e + 0.22, vnoise(dir * 3.1 + in.sv * 1.9 + 7.7));
        let fade = 1.0 - smoothstep(0.55, 1.0, a01);
        alpha = stroke * cover * fade * 0.85;
        color = vec3<f32>(0.97, 1.0, 0.99);
    } else {
        let s1 = 1.0 - smoothstep(w * 0.8, w * 0.8 + 1.4, abs(rad - radius));
        let s2 = (1.0 - smoothstep(w * 0.5, w * 0.5 + 1.2, abs(rad - radius * 0.72))) * 0.5;
        let fade = 1.0 - smoothstep(0.45, 1.0, a01);
        alpha = clamp(s1 + s2, 0.0, 1.0) * fade * 0.6;
        color = vec3<f32>(0.85, 0.97, 1.0);
    }
    return vec4<f32>(srgb_to_linear(color) * alpha, alpha);
}
