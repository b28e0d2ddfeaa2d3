const NEIGHBOUR_DIST: f32 = 100.0;
const NEIGHBOUR_D2: f32 = 10000.0;
const SEPARATE_D2: f32 = 2500.0;
const MAX_FORCE: f32 = 0.3;
const REF_FPS: f32 = 60.0;
const MOUSE_NEAR2: f32 = 10000.0;
const MOUSE_ATTRACT_K: f32 = 4.0;
const MOUSE_REPEL_K: f32 = -6.0;
const MAX_SAMPLES: u32 = 128u;
struct Params {
    size: vec2<f32>,
    half: vec2<f32>,
    dt: f32,
    max_speed: f32,
    separation: f32,
    alignment: f32,
    cohesion: f32,
    mouse_active: f32,
    frame_salt: u32,
    count: u32,
    mouse_pos: vec2<f32>,
    cols: u32,
    rows: u32,
}
@group(0) @binding(0) var<uniform> params: Params;
@group(0) @binding(1) var<storage, read_write> state: array<vec4<f32>>;
@group(0) @binding(2) var<storage, read_write> sorted_pos: array<vec2<f32>>;
@group(0) @binding(3) var<storage, read_write> sorted_vel: array<vec2<f32>>;
@group(0) @binding(4) var<storage, read_write> cell_of: array<u32>;
@group(0) @binding(5) var<storage, read_write> id_of: array<u32>;
@group(0) @binding(6) var<storage, read_write> counts: array<atomic<u32>>;
@group(0) @binding(7) var<storage, read_write> starts: array<u32>;
@group(0) @binding(8) var<storage, read_write> instances: array<vec4<f32>>;
@group(0) @binding(9) var<storage, read_write> instances_rev: array<vec4<f32>>;
fn cell_x(x: f32) -> u32 {
    return min(u32(max((x + params.half.x) / NEIGHBOUR_DIST, 0.0)), params.cols - 1u);
}
fn cell_y(y: f32) -> u32 {
    return min(u32(max((y + params.half.y) / NEIGHBOUR_DIST, 0.0)), params.rows - 1u);
}
@compute @workgroup_size(256)
fn clear_grid(@builtin(global_invocation_id) gid: vec3<u32>) {
    if (gid.x < params.cols * params.rows) {
        atomicStore(&counts[gid.x], 0u);
    }
}
@compute @workgroup_size(256)
fn count_boids(@builtin(global_invocation_id) gid: vec3<u32>) {
    let i = gid.x;
    if (i >= params.count) { return; }
    let p = state[i].xy;
    let c = cell_y(p.y) * params.cols + cell_x(p.x);
    cell_of[i] = c;
    atomicAdd(&counts[c], 1u);
}
@compute @workgroup_size(1)
fn scan_cells(@builtin(global_invocation_id) gid: vec3<u32>) {
    if (gid.x != 0u) { return; }
    let ncells = params.cols * params.rows;
    var running = 0u;
    for (var c = 0u; c < ncells; c++) {
        starts[c] = running;
        let n = atomicLoad(&counts[c]);
        atomicStore(&counts[c], running);
        running += n;
    }
    starts[ncells] = running;
}
@compute @workgroup_size(256)
fn scatter(@builtin(global_invocation_id) gid: vec3<u32>) {
    let i = gid.x;
    if (i >= params.count) { return; }
    let dst = atomicAdd(&counts[cell_of[i]], 1u);
    let boid = state[i];
    sorted_pos[dst] = boid.xy;
    sorted_vel[dst] = boid.zw;
    id_of[dst] = i;
}
fn target_force(k: f32, dir: vec2<f32>, vel: vec2<f32>) -> vec2<f32> {
    var n = vec2<f32>(0.0);
    let len2 = dot(dir, dir);
    if (len2 > 0.0) { n = dir / sqrt(len2); }
    let steer = n * params.max_speed - vel / REF_FPS;
    let sl2 = dot(steer, steer);
    var clamped = steer;
    if (sl2 > MAX_FORCE * MAX_FORCE) { clamped = steer * (MAX_FORCE / sqrt(sl2)); }
    return k * clamped * REF_FPS * REF_FPS;
}
@compute @workgroup_size(256)
fn steer(@builtin(global_invocation_id) gid: vec3<u32>) {
    let slot = gid.x;
    if (slot >= params.count) { return; }
    let p = sorted_pos[slot];
    let v = sorted_vel[slot];
    let cx = cell_x(p.x);
    let cy = cell_y(p.y);
    let x0 = select(cx - 1u, 0u, cx == 0u);
    let x1 = min(cx + 2u, params.cols);
    let y0 = select(cy - 1u, 0u, cy == 0u);
    let y1 = min(cy + 2u, params.rows);
    var span_s = array<u32, 3>(0u, 0u, 0u);
    var span_e = array<u32, 3>(0u, 0u, 0u);
    var nspans = 0u;
    var candidates = 0u;
    for (var y = y0; y < y1; y++) {
        let s = starts[y * params.cols + x0];
        let e = starts[y * params.cols + x1];
        span_s[nspans] = s;
        span_e[nspans] = e;
        nspans++;
        candidates += e - s;
    }
    let stride = max((candidates + MAX_SAMPLES - 1u) / MAX_SAMPLES, 1u);
    let salt = slot * 0x9E3779B9u + params.frame_salt;
    var sum_sep = vec2<f32>(0.0);
    var sum_align = vec2<f32>(0.0);
    var sum_coh = vec2<f32>(0.0);
    var cnt_n = 0.0;
    var cnt_s = 0.0;
    for (var si = 0u; si < nspans; si++) {
        let s = span_s[si];
        let len = span_e[si] - s;
        if (len == 0u) { continue; }
        var take = len;
        var start = 0u;
        if (stride > 1u) {
            take = (len + stride - 1u) / stride;
            start = salt % len;
        }
        for (var t = 0u; t < take; t++) {
            var idx = start + t;
            if (idx >= len) { idx -= len; }
            let q = sorted_pos[s + idx];
            let d = p - q;
            let d2 = dot(d, d);
            if (d2 > 0.0 && d2 < NEIGHBOUR_D2) {
                sum_align += sorted_vel[s + idx];
                sum_coh += q;
                cnt_n += 1.0;
                if (d2 < SEPARATE_D2) {
                    sum_sep += d / d2;
                    cnt_s += 1.0;
                }
            }
        }
    }
    var acc = vec2<f32>(0.0);
    if (cnt_s > 0.0) { acc += target_force(params.separation, sum_sep, v); }
    if (cnt_n > 0.0) {
        acc += target_force(params.alignment, sum_align, v);
        acc += target_force(params.cohesion, sum_coh / cnt_n - p, v);
    }
    if (params.mouse_active > 0.5) {
        let diff = params.mouse_pos - p;
        var k = MOUSE_ATTRACT_K;
        if (dot(diff, diff) < MOUSE_NEAR2) { k = MOUSE_REPEL_K; }
        acc += target_force(k, diff, v);
    }
    var new_v = v + acc * params.dt;
    let sp2 = dot(new_v, new_v);
    if (sp2 > params.max_speed * params.max_speed) {
        new_v *= params.max_speed / sqrt(sp2);
    }
    var pos = p + new_v * params.dt;
    if (pos.x < -params.half.x) { pos.x += params.size.x; }
    else if (pos.x >= params.half.x) { pos.x -= params.size.x; }
    if (pos.y < -params.half.y) { pos.y += params.size.y; }
    else if (pos.y >= params.half.y) { pos.y -= params.size.y; }
    let id = id_of[slot];
    var rot = instances[id].zw;
    if (sp2 > 0.0) { rot = new_v / sqrt(sp2); }
    state[id] = vec4<f32>(pos, new_v);
    instances[id] = vec4<f32>(pos, rot);
}
@compute @workgroup_size(256)
fn reverse_instances(@builtin(global_invocation_id) gid: vec3<u32>) {
    let i = gid.x;
    if (i >= params.count) { return; }
    instances_rev[i] = instances[params.count - 1u - i];
}
