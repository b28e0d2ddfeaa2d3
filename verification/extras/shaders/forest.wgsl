#import bevy_sprite::mesh2d_view_bindings::view
struct ForestParams {
    time: f32,
    wind: f32,
    base_hue: f32,
    hue_spread: f32,
    brightness: f32,
    leaf_hue: f32,
};
@group(1) @binding(0) var<uniform> params: ForestParams;
struct VertexOutput {
    @builtin(position) clip_position: vec4<f32>,
    @location(0) color: vec4<f32>,
};
fn hue2rgb(p: f32, q: f32, t_in: f32) -> f32 {
    var t = t_in;
    if (t < 0.0) { t = t + 1.0; }
    if (t > 1.0) { t = t - 1.0; }
    if (t < 1.0 / 6.0) { return p + (q - p) * 6.0 * t; }
    if (t < 0.5) { return q; }
    if (t < 2.0 / 3.0) { return p + (q - p) * (2.0 / 3.0 - t) * 6.0; }
    return p;
}
fn hsl2rgb(h_deg: f32, s_pct: f32, l_pct: f32) -> vec3<f32> {
    let h = fract(h_deg / 360.0);
    let s = s_pct / 100.0;
    let l = l_pct / 100.0;
    if (s == 0.0) { return vec3<f32>(l, l, l); }
    var q: f32;
    if (l < 0.5) { q = l * (1.0 + s); } else { q = l + s - l * s; }
    let p = 2.0 * l - q;
    return vec3<f32>(hue2rgb(p, q, h + 1.0 / 3.0), hue2rgb(p, q, h), hue2rgb(p, q, h - 1.0 / 3.0));
}
fn srgb_to_linear(c: vec3<f32>) -> vec3<f32> {
    let lo = c / 12.92;
    let hi = pow((c + 0.055) / 1.055, vec3<f32>(2.4));
    return select(hi, lo, c <= vec3<f32>(0.04045));
}
@vertex
fn vertex(@location(0) pos: vec2<f32>, @location(1) packed: u32) -> VertexOutput {
    var out: VertexOutput;
    let byte0 = packed & 0xffu;
    let is_leaf = (byte0 & 0x80u) != 0u;
    let level = f32(byte0 & 0x7fu);
    let alpha = f32((packed >> 8u) & 0xffu) / 255.0;
    let sway = f32((packed >> 16u) & 0xffu) / 255.0;
    let tree_phase = f32((packed >> 24u) & 0xffu) / 255.0 * 6.2831853;
    var rgb: vec3<f32>;
    if (is_leaf) {
        rgb = hsl2rgb(params.leaf_hue, 55.0, 45.0);
    } else {
        rgb = hsl2rgb(params.base_hue + params.hue_spread * level, 100.0, params.brightness * pow(1.2, level));
    }
    rgb = clamp(rgb, vec3<f32>(0.0), vec3<f32>(1.0));
    let lin = srgb_to_linear(rgb);
    let gust = sin(params.time * 1.1 + tree_phase) * 0.75 + sin(params.time * 2.3 + tree_phase * 1.7 + 1.3) * 0.25;
    let dx = pow(sway, 1.5) * params.wind * 28.0 * gust;
    out.clip_position = view.clip_from_world * vec4<f32>(pos.x + dx, pos.y, 0.0, 1.0);
    out.color = vec4<f32>(lin * alpha, alpha);
    return out;
}
@fragment
fn fragment(in: VertexOutput) -> @location(0) vec4<f32> {
    return in.color;
}
