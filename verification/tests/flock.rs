//! The flock: sorting, neighbours, size, and what is drawn of it.

use boids::flock::gpu::{
    dispatch_plan, gpu_mouse_target, group_count, sim_ready, BufferUse, GpuBuffer, GpuFlock,
    GpuFlockParams, PipelineState, SimPass, MAX_BOIDS, MAX_CELLS,
};
use boids::flock::grid::{combine, count_cells, scatter, FlockGrid};
use boids::flock::render::{
    boid_coverage, boid_mesh_indices, extract_flock, flock_draw, flock_layouts,
    heading_triangle_holds, queue_flock, sim_mode, FlockDraw, RenderStyle, SimMode, MESH_VERTICES,
};
use boids::flock::rules::neighbour_rules;
use boids::flock::runs::{candidate_runs, candidate_spans, cell_index};
use boids::flock::sim::{flocking, sort_flock, steer_range};
use boids::flock::size::{handle_restart, mouse_pull, mouse_target, sync_flock_size, MousePull};
use boids::flock::tuning::chunk_sizes;
use boids::layout::StepMode;
use boids::shell::AppState;

#[test]
fn chunk_sizes_reproduce_certified_tuning() {
    assert_eq!(chunk_sizes(320_000, 6), (16_384, 4_096));
}

#[test]
fn chunk_sizes_scale_with_pool() {
    let (_, steer_small) = chunk_sizes(50, 6);
    assert_eq!(steer_small, 1024, "small flocks hit the floor");
    let (_, steer_many) = chunk_sizes(320_000, 48);
    assert!(
        steer_many < 4096,
        "a 48-thread pool should get smaller chunks than the 6-thread \
         pool, got {steer_many}"
    );
    // tasks-per-worker stays in the same band as the certified machine.
    let tasks_per_worker = 320_000usize.div_ceil(steer_many) / 48;
    assert!((6..=26).contains(&tasks_per_worker), "{tasks_per_worker}");
    assert_eq!(chunk_sizes(100_000_000, 1).1, 65_536, "huge flocks hit the ceiling");
    assert_eq!(chunk_sizes(0, 0), (4096, 1024));
}

#[test]
fn sorting_is_stable_and_complete() {
    let items = vec!['a', 'b', 'c', 'd', 'e', 'f', 'g'];
    let cells = vec![2, 0, 1, 0, 2, 1, 0];
    for chunk in 1..=8 {
        let grid = FlockGrid::rebuild(&items, cells.clone(), 3, chunk);
        assert_eq!(grid.sorted, vec!['b', 'd', 'g', 'c', 'f', 'a', 'e']);
        assert_eq!(grid.starts, vec![0, 3, 5, 7]);
        assert_eq!(grid.cell_of, cells);
    }
    let empty: FlockGrid<char> = FlockGrid::rebuild(&vec![], vec![], 3, 4);
    assert_eq!(empty.starts, vec![0, 0, 0, 0]);
}

#[test]
fn tasks_count_their_own_chunks() {
    let cells = vec![2, 0, 1, 0, 2, 1, 0];
    let mut histo = count_cells(&cells, 3, 4, 2);
    assert_eq!(histo, vec![2, 1, 1, 1, 1, 1]);
    let starts = combine(&cells, &mut histo, 3, 4, 2);
    assert_eq!(starts, vec![0, 3, 5, 7]);
    // Where each task's first boid of each cell goes.
    assert_eq!(histo, vec![0, 3, 5, 2, 4, 6]);
    let items = vec![10, 11, 12, 13, 14, 15, 16];
    let sorted = scatter(&items, &cells, &mut histo, 3, 4, 2);
    assert_eq!(sorted, vec![11, 13, 16, 12, 15, 10, 14]);
}

#[test]
fn cells_are_clamped_to_the_grid() {
    assert_eq!(cell_index(2, 1, 5, 4), 7);
    assert_eq!(cell_index(99, 99, 5, 4), 19);
}

#[test]
fn neighbours_are_three_rows_of_cells() {
    // A grid of four by four cells with one boid each.
    let starts: Vec<u32> = (0..=16).collect();
    assert_eq!(candidate_spans(&starts, 4, 4, 1, 1), vec![(0, 3), (4, 7), (8, 11)]);
    assert_eq!(candidate_spans(&starts, 4, 4, 0, 0), vec![(0, 2), (4, 6)]);
    assert_eq!(candidate_spans(&starts, 4, 4, 3, 3), vec![(10, 12), (14, 16)]);
    // Few candidates are all examined, whatever the salt.
    assert_eq!(
        candidate_runs(&starts, 4, 4, 1, 1, 5, 12_345),
        vec![(0, 3), (4, 7), (8, 11)]
    );
}

#[test]
fn crowds_are_sampled() {
    // One cell of a thousand boids: every eighth is examined, in a window that
    // the salt turns.
    let starts = vec![0u32, 1000];
    let mut offsets = vec![];
    for dst in 0..20 {
        let runs = candidate_runs(&starts, 1, 1, 0, 0, dst, 7);
        let taken: usize = runs.iter().map(|r| r.1 - r.0).sum();
        assert_eq!(taken, 125);
        assert!(runs.iter().all(|r| r.0 <= r.1 && r.1 <= 1000));
        offsets.push(runs[0].0);
    }
    offsets.dedup();
    assert!(offsets.len() > 1, "windows differ between boids");
}

#[test]
fn candidates_are_taken_once() {
    let sorted: Vec<u32> = (0..40).collect();
    let runs = vec![(0, 7), (10, 10), (12, 20), (33, 36)];
    let (four, one) = neighbour_rules(
        &sorted,
        &runs,
        Vec::<u32>::new(),
        Vec::<u32>::new(),
        &|mut a: Vec<u32>, q: (u32, u32, u32, u32)| {
            a.extend([q.0, q.1, q.2, q.3]);
            a
        },
        &|mut c: Vec<u32>, b: u32| {
            c.push(b);
            c
        },
        &|a: Vec<u32>, c: Vec<u32>| (a, c),
    );
    assert_eq!(four, vec![0, 1, 2, 3, 12, 13, 14, 15, 16, 17, 18, 19]);
    assert_eq!(one, vec![4, 5, 6, 33, 34, 35]);
}

#[test]
fn a_frame_steers_the_sorted_flock() {
    // Boids are places on a line of ten cells of ten; each moves to the sum of
    // its candidates.
    let mut flock: Vec<usize> = vec![55, 12, 58, 13, 99];
    let mut instances: Vec<usize> = vec![0; 5];
    let grid = flocking(
        &mut flock,
        &mut instances,
        10,
        1,
        2,
        0,
        |b: usize| (b / 10, 0),
        |g: &FlockGrid<usize>, _: usize, runs: &Vec<(usize, usize)>| {
            runs.iter().flat_map(|r| &g.sorted[r.0..r.1]).sum()
        },
        |b: usize, i: usize| b + i,
    );
    assert_eq!(grid.sorted, vec![12, 13, 55, 58, 99]);
    assert_eq!(grid.cell_of, vec![5, 1, 5, 1, 9]);
    assert_eq!(flock, vec![25, 25, 113, 113, 99]);
    assert_eq!(instances, flock);
}

#[test]
fn flocks_grow_and_shrink() {
    let mut flock: Vec<u32> = (0..10).collect();
    let mut instances: Vec<u32> = (100..110).collect();
    sync_flock_size(&mut flock, &mut instances, 12, || (7, 8));
    assert_eq!(flock[..10], (0..10).collect::<Vec<u32>>()[..]);
    assert_eq!((flock[11], instances[11]), (7, 8));

    // Who leaves is picked by a generator that the size seeds.
    let mut flock: Vec<u32> = (0..12).collect();
    let mut instances: Vec<u32> = (100..112).collect();
    let mut want = flock.clone();
    let mut h: u32 = 0x9E37_79B9 ^ 12;
    while want.len() > 4 {
        h = h.wrapping_mul(1_664_525).wrapping_add(1_013_904_223);
        let j = h as usize % want.len();
        want.swap_remove(j);
    }
    sync_flock_size(&mut flock, &mut instances, 4, || (7, 8));
    assert_eq!(flock, want);
    assert_eq!(instances, want.iter().map(|b| b + 100).collect::<Vec<u32>>());
    // There is one boid at least.
    sync_flock_size(&mut flock, &mut instances, 0, || (7, 8));
    assert_eq!(flock.len(), 1);
}

#[test]
fn restarting_empties_the_flock() {
    let mut request = false;
    let (mut flock, mut instances) = (vec![1, 2], vec![3, 4]);
    handle_restart(AppState::Menu, true, &mut request, &mut flock, &mut instances);
    assert_eq!(flock.len(), 2);
    handle_restart(AppState::Playing, true, &mut request, &mut flock, &mut instances);
    assert!(flock.is_empty() && instances.is_empty());
    request = true;
    flock.push(1);
    instances.push(1);
    handle_restart(AppState::Options, false, &mut request, &mut flock, &mut instances);
    assert!(flock.is_empty() && !request);
}

#[test]
fn the_pointer_pulls_or_pushes() {
    assert_eq!(mouse_target(true, true, 5, None), Some(5));
    assert_eq!(mouse_target(false, true, 5, Some(9)), None);
    assert_eq!(mouse_target(false, false, 5, Some(9)), Some(9));
    assert_eq!(mouse_target(false, false, 5, None::<i32>), None);
    assert_eq!(mouse_pull(false, true), MousePull::Nothing);
    assert_eq!(mouse_pull(true, true), MousePull::Repel);
    assert_eq!(mouse_pull(true, false), MousePull::Attract);
    assert_eq!(gpu_mouse_target(AppState::Playing, false, false, 5, Some(9)), Some(9));
    assert_eq!(gpu_mouse_target(AppState::Menu, false, false, 5, Some(9)), None);
}

#[test]
fn the_card_gets_new_boids_only() {
    let mut flock: GpuFlock<u32> = GpuFlock::new();
    let mut restart = false;
    assert!(flock.gpu_sync_flock(AppState::Playing, &mut restart, false, 5, || 9));
    assert_eq!((flock.count, flock.base, flock.upload.clone()), (5, 0, vec![9; 5]));
    assert_eq!(flock.upload_offset(), Some(0));
    assert!(flock.gpu_sync_flock(AppState::Playing, &mut restart, false, 7, || 8));
    assert_eq!((flock.count, flock.base, flock.upload.clone()), (7, 5, vec![8; 2]));
    assert_eq!(flock.upload_offset(), Some(80));
    assert!(flock.gpu_sync_flock(AppState::Playing, &mut restart, false, 3, || 8));
    assert_eq!((flock.count, flock.upload.len(), flock.upload_offset()), (3, 0, None));
    // A restart uploads the whole flock.
    assert!(flock.gpu_sync_flock(AppState::Playing, &mut restart, true, 3, || 6));
    assert_eq!((flock.base, flock.upload.clone()), (0, vec![6; 3]));
    flock.gpu_sync_flock(AppState::Playing, &mut restart, false, usize::MAX, || 6);
    assert_eq!(flock.count, MAX_BOIDS);
}

#[test]
fn new_boids_are_uploaded_as_bytes() {
    let mut flock: GpuFlock<[u32; 4]> = GpuFlock::new();
    assert_eq!(flock.prepare_sim(), None);
    let mut restart = false;
    let state = [1.5f32.to_bits(), 0x0102_0304, 0, u32::MAX];
    flock.gpu_sync_flock(AppState::Playing, &mut restart, false, 2, || state);
    let mut want = vec![];
    for _ in 0..2 {
        for word in state {
            want.extend(word.to_ne_bytes());
        }
    }
    assert_eq!(flock.prepare_sim(), Some((0, want)));
    flock.gpu_sync_flock(AppState::Playing, &mut restart, false, 3, || state);
    assert_eq!(flock.prepare_sim().unwrap().0, 32);
}

#[test]
fn buffers_fit_the_largest_flock() {
    let sizes: Vec<u64> = GpuBuffer::bindings().into_iter().map(|b| b.size()).collect();
    let n = MAX_BOIDS as u64;
    let cells = MAX_CELLS as u64;
    assert_eq!(
        sizes,
        vec![
            n * 16,
            n * 8,
            n * 8,
            n * 4,
            n * 4,
            cells * 4,
            (cells + 1) * 4,
            n * 16,
            n * 16
        ]
    );
    assert_eq!(GpuBuffer::State.extra_use(), BufferUse::CopyTarget);
    assert_eq!(GpuBuffer::Counts.extra_use(), BufferUse::Storage);
    assert_eq!(GpuBuffer::InstancesRev.extra_use(), BufferUse::VertexSource);
}

#[test]
fn the_card_runs_its_passes_in_order() {
    let params = GpuFlockParams { count: 1000, cols: 20, rows: 13 };
    assert_eq!(params.count(), 1000);
    assert_eq!([group_count(0), group_count(256), group_count(257)], [0, 1, 2]);
    assert_eq!(
        dispatch_plan(true, true, Some(params), true),
        vec![
            (SimPass::ClearGrid, 2),
            (SimPass::CountBoids, 4),
            (SimPass::ScanCells, 1),
            (SimPass::Scatter, 4),
            (SimPass::Steer, 4),
            (SimPass::ReverseInstances, 4),
        ]
    );
    assert_eq!(
        dispatch_plan(true, false, Some(params), true),
        vec![(SimPass::ReverseInstances, 4)]
    );
    assert_eq!(dispatch_plan(false, true, Some(params), true), vec![]);
    assert_eq!(dispatch_plan(true, true, None, true), vec![]);
    assert_eq!(dispatch_plan(true, true, Some(params), false), vec![]);
    let none = GpuFlockParams { count: 0, ..params };
    assert_eq!(dispatch_plan(true, true, Some(none), true), vec![]);
    assert_eq!(SimPass::Steer.entry(), "steer");
}

#[test]
fn the_card_waits_for_its_pipelines() {
    let (ready, waiting, failed) =
        (PipelineState::Ready, PipelineState::Waiting, PipelineState::Failed);
    assert_eq!(sim_ready(false, &vec![ready, ready]), Ok(true));
    assert_eq!(sim_ready(false, &vec![ready, waiting, failed]), Ok(false));
    assert_eq!(sim_ready(false, &vec![ready, failed]), Err(1));
    assert_eq!(sim_ready(true, &vec![failed]), Ok(true));
}

#[test]
fn boids_are_drawn_newest_first() {
    assert_eq!(extract_flock(&vec![1, 2, 3]), vec![3, 2, 1]);
    assert_eq!(sim_mode(true), SimMode::Cpu);
    assert_eq!(sim_mode(false), SimMode::Gpu);
}

#[test]
fn draws_need_their_parts() {
    let (quads, geometry) = (RenderStyle::Quads, RenderStyle::Geometry);
    assert_eq!(flock_draw(SimMode::Cpu, quads, None, None, true, true), FlockDraw::NoInstances);
    assert_eq!(flock_draw(SimMode::Cpu, quads, None, Some(0), true, true), FlockDraw::Skip);
    assert_eq!(flock_draw(SimMode::Gpu, quads, None, Some(9), true, true), FlockDraw::Skip);
    assert_eq!(flock_draw(SimMode::Gpu, quads, Some(4), None, true, true), FlockDraw::Quads(4));
    assert_eq!(flock_draw(SimMode::Gpu, quads, Some(4), None, false, true), FlockDraw::Skip);
    assert_eq!(flock_draw(SimMode::Cpu, geometry, None, Some(5), true, false), FlockDraw::NoMesh);
    assert_eq!(
        flock_draw(SimMode::Cpu, geometry, None, Some(5), true, true),
        FlockDraw::Geometry(5)
    );
    assert!(queue_flock(Some(SimMode::Gpu), Some(1), 0));
    assert!(!queue_flock(Some(SimMode::Gpu), None, 5));
    assert!(queue_flock(Some(SimMode::Cpu), None, 5));
    assert!(!queue_flock(None, Some(1), 5));
}

#[test]
fn a_boid_is_a_disc_under_a_triangle() {
    let indices = boid_mesh_indices();
    assert_eq!(MESH_VERTICES, 12);
    assert_eq!(indices.len(), 27);
    assert!(indices.iter().all(|&i| i < MESH_VERTICES));
    assert_eq!(indices[..6], [0, 1, 2, 0, 2, 3]);
    // The fan closes on the rim's first corner; the triangle comes last.
    assert_eq!(indices[21..], [0, 8, 1, 9, 10, 11]);
    assert!(heading_triangle_holds(100, 0));
    assert!(!heading_triangle_holds(-1, 0));
    assert!(!heading_triangle_holds(225, 0));
    // Only the triangle: what is covered is white.
    let bare = boid_coverage(|_: i32, _: i32| false);
    assert_eq!(bare.len(), 240);
    assert!(bare.iter().all(|t| t.0 == t.1 && t.0 <= 64));
    assert!(bare.iter().any(|t| t.0 == 64));
    // A body everywhere covers all samples and leaves the white as it was.
    let full = boid_coverage(|_: i32, _: i32| true);
    assert!(full.iter().all(|t| t.0 == 64));
    assert!(full.iter().zip(&bare).all(|(f, b)| f.1 == b.1));
}

#[test]
fn flock_records_are_laid_out_without_gaps() {
    let quads = flock_layouts(true);
    assert_eq!((quads.len(), quads[0].stride, quads[0].step), (1, 16, StepMode::Instance));
    let mesh = flock_layouts(false);
    assert_eq!((mesh.len(), mesh[0].stride, mesh[1].stride), (2, 16, 16));
    assert_eq!(mesh[1].attributes[0].location, 2);
    assert_eq!(mesh[0].attributes[1].offset, 12);
}

#[test]
fn ranges_of_the_flock_step_alike() {
    let locate = |b: usize| (b / 10, 0);
    let steer = |g: &FlockGrid<usize>, dst: usize, runs: &Vec<(usize, usize)>| {
        dst + runs.iter().flat_map(|r| &g.sorted[r.0..r.1]).sum::<usize>()
    };
    let publish = |b: usize, i: usize| b + i;
    let mut flock: Vec<usize> = (0..40).map(|i| i * 37 % 100).collect();
    let mut records: Vec<usize> = (0..40).collect();
    let grid = sort_flock(&flock, 10, 1, 7, &locate);
    let mut steps = vec![];
    for lo in (0..40).step_by(9) {
        let hi = (lo + 9).min(40);
        steps.extend(steer_range(&grid, &records, 10, 1, 3, lo, hi, &locate, &steer, &publish));
    }
    flocking(&mut flock, &mut records, 10, 1, 7, 3, locate, steer, publish);
    assert_eq!(steps.iter().map(|s| s.0).collect::<Vec<_>>(), flock);
    assert_eq!(steps.iter().map(|s| s.1).collect::<Vec<_>>(), records);
}

#[test]
fn larger_pools_get_no_larger_chunks() {
    for n in [0, 50, 10_000, 320_000, 1_280_000] {
        let mut last = usize::MAX;
        for threads in 0..64 {
            let (sort, steer) = chunk_sizes(n, threads);
            assert!(steer <= last);
            assert_eq!(sort, 4 * steer);
            last = steer;
        }
    }
}
