#import bevy_sprite::mesh2d_view_bindings::view
struct BubbleParams {
    origin: vec2<f32>,
    bounds: vec2<f32>,
    time: f32,
};
@group(1) @binding(0) var<uniform> params: BubbleParams;
struct VertexOutput {
    @builtin(position) clip_position: vec4<f32>,
    @location(0) prof: vec2<f32>,
    @location(1) alpha: f32,
    @location(2) pop: f32,
};
const TAU: f32 = 6.28318530718;
fn pcg(v: u32) -> u32 {
    let s = v * 747796405u + 2891336453u;
    let w = ((s >> ((s >> 28u) + 4u)) ^ s) * 277803737u;
    return (w >> 22u) ^ w;
}
fn hash01(v: u32) -> f32 {
    return f32(pcg(v)) / 4294967295.0;
}
@vertex
fn vertex(@builtin(vertex_index) vi: u32) -> VertexOutput {
    let bubble = vi / 6u;
    let corner = vi % 6u;
    var prof: vec2<f32>;
    switch corner {
        case 0u: { prof = vec2<f32>(-1.0, -1.0); }
        case 1u: { prof = vec2<f32>(1.0, -1.0); }
        case 2u: { prof = vec2<f32>(-1.0, 1.0); }
        case 3u: { prof = vec2<f32>(1.0, -1.0); }
        case 4u: { prof = vec2<f32>(1.0, 1.0); }
        default: { prof = vec2<f32>(-1.0, 1.0); }
    }
    let period = mix(5.0, 11.0, hash01(bubble * 4u + 1u));
    let life = params.time / period + hash01(bubble * 4u + 2u);
    let cycle = u32(floor(life));
    let t = fract(life);
    let seed = bubble * 747u + cycle * 2654435761u;
    let anchor = vec2<f32>(
        hash01(seed ^ 0x68bc21ebu) * params.bounds.x,
        hash01(seed ^ 0x02e5be93u) * params.bounds.y,
    );
    let r_max = mix(1.6, 4.2, hash01(seed ^ 0x967a889bu));
    var r: f32;
    var alpha: f32;
    var pop: f32;
    if (t < 0.85) {
        let rise = t / 0.85;
        r = mix(0.5, r_max, rise);
        alpha = 0.55 * smoothstep(0.0, 0.12, t) * mix(0.4, 1.0, rise);
        pop = 0.0;
    } else {
        let pt = (t - 0.85) / 0.15;
        r = r_max * (1.0 + 2.5 * pt);
        alpha = 0.8 * (1.0 - pt);
        pop = 1.0;
    }
    let rise = min(t / 0.85, 1.0);
    let fb = f32(bubble);
    let sway = vec2<f32>(
        sin(params.time * 1.7 + fb * 2.39),
        cos(params.time * 1.3 + fb * 5.71),
    ) * (2.5 * rise);
    let centre = anchor + sway;
    let window = centre + prof * r;
    let world = vec2<f32>(window.x - params.origin.x, params.origin.y - window.y);
    var out: VertexOutput;
    out.clip_position = view.clip_from_world * vec4<f32>(world, 0.0, 1.0);
    out.prof = prof;
    out.alpha = alpha;
    out.pop = pop;
    return out;
}
@fragment
fn fragment(in: VertexOutput) -> @location(0) vec4<f32> {
    let d = length(in.prof);
    let rim = smoothstep(0.45, 0.8, d) * (1.0 - smoothstep(0.8, 1.0, d));
    let fill = (1.0 - smoothstep(0.0, 0.9, d)) * 0.10 * (1.0 - in.pop);
    let hl = (1.0 - smoothstep(0.0, 0.3, length(in.prof - vec2<f32>(-0.32, -0.32))))
        * 0.7 * (1.0 - in.pop);
    let i = (rim * 0.55 + fill + hl) * in.alpha;
    return vec4<f32>(vec3<f32>(0.75, 0.92, 1.0) * i, 0.0);
}
