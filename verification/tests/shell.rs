//! The program around the experiments, and the small tools.

use boids::arith::{div_ceil, next_power_of_two};
use boids::cli::{flag, given_or, value, values};
use boids::layout::{pair_layout, AttributeFormat, StepMode};
use boids::mesh::{chunk_plan, merge, Mesh};
use boids::shell::{
    apply_vsync, clear_when_inactive, cpu_sim_selected, fish_score, flock_score, flow_score,
    forest_score, panel_shown, panel_toggle_label, snapshot_path, steering_skipped, AppState,
    ExperimentId, Presentation, SnapshotClock, SECOND,
};
use boids::text::{append_decimal, label, parse_count};

fn args(words: &[&str]) -> Vec<String> {
    words.iter().map(|w| w.to_string()).collect()
}

#[test]
fn the_program_starts_in_its_menu() {
    assert_eq!(AppState::default(), AppState::Menu);
    assert!(AppState::Menu.sim_runs());
    assert!(AppState::Playing.sim_runs());
    assert!(!AppState::Options.sim_runs());
}

#[test]
fn vsync_follows_its_checkbox() {
    assert_eq!(apply_vsync(false, true), None);
    assert_eq!(apply_vsync(true, true), Some(Presentation::AutoVsync));
    assert_eq!(apply_vsync(true, false), Some(Presentation::AutoNoVsync));
}

#[test]
fn only_another_experiment_clears() {
    assert!(clear_when_inactive(true, ExperimentId::Fish, ExperimentId::Flow));
    assert!(!clear_when_inactive(true, ExperimentId::Flow, ExperimentId::Flow));
    assert!(!clear_when_inactive(false, ExperimentId::Fish, ExperimentId::Flow));
}

#[test]
fn panels_show_in_play() {
    assert!(panel_shown(AppState::Playing, ExperimentId::Flow, ExperimentId::Flow));
    assert!(!panel_shown(AppState::Options, ExperimentId::Flow, ExperimentId::Flow));
    assert!(!panel_shown(AppState::Playing, ExperimentId::Fish, ExperimentId::Flow));
    assert_eq!((panel_toggle_label(true), panel_toggle_label(false)), ("Hide", "Show"));
}

#[test]
fn scores_are_written_out() {
    assert_eq!(flock_score(Some(320_000), 7), "Boids: 320000");
    assert_eq!(flock_score(None, 7), "Boids: 7");
    assert_eq!(fish_score(0), "Score: 0");
    assert_eq!(flow_score(64, 40), "Cells: 2560");
    assert_eq!(forest_score(5, 12_345), "Trees: 5   12345 segments");
}

#[test]
fn snapshots_keep_their_distance() {
    let mut clock = SnapshotClock::default();
    assert_eq!(clock.tick(0), None);
    assert_eq!(clock.tick(4 * SECOND - 1), None);
    assert_eq!(clock.tick(4 * SECOND), Some(0));
    assert_eq!(clock.tick(9 * SECOND - 1), None);
    assert_eq!(clock.tick(9 * SECOND), Some(1));
    assert_eq!(clock.tick(14 * SECOND), Some(2));
    assert_eq!(clock.tick(19 * SECOND), Some(0));
    assert_eq!(snapshot_path(2), "/tmp/boids_headless_2.png");
}

#[test]
fn arguments_select_the_simulation() {
    assert!(cpu_sim_selected(&args(&["boids", "cpu"])));
    assert!(cpu_sim_selected(&args(&["boids", "nosim"])));
    assert!(!cpu_sim_selected(&args(&["boids", "gpu"])));
    assert!(steering_skipped(&args(&["boids", "nosim"])));
    assert!(!steering_skipped(&args(&["boids", "cpu"])));
}

#[test]
fn arguments_are_found_behind_the_program() {
    assert!(flag(&args(&["boids", "fish"]), "fish"));
    assert!(!flag(&args(&["fish"]), "fish"));
    assert!(!flag(&args(&[]), "fish"));
    assert_eq!(value("growth=12", "growth"), Some("12".to_string()));
    assert_eq!(value("growth", "growth"), None);
    assert_eq!(
        values(&args(&["boids", "seed=1", "x", "seed=", "seed=3"]), "seed"),
        args(&["1", "", "3"])
    );
    assert_eq!((given_or(Some(3), 4), given_or(None, 4)), (3, 4));
}

#[test]
fn counts_are_read_and_written() {
    for n in [0u64, 7, 10, 99, 320_000, u64::MAX] {
        let mut text = String::from("n=");
        append_decimal(&mut text, n);
        assert_eq!(text, format!("n={n}"));
    }
    assert_eq!(label("Boids: ", 12), "Boids: 12");
    assert_eq!(parse_count("0"), Some(0));
    assert_eq!(parse_count("0012"), Some(12));
    assert_eq!(parse_count("+5"), Some(5));
    for text in ["", "+", "-1", "1.5", "12x", " 1", "99999999999999999999999"] {
        assert_eq!(parse_count(text), None, "{text:?}");
        assert!(text.parse::<usize>().is_err());
    }
    assert_eq!(parse_count(&usize::MAX.to_string()), Some(usize::MAX));
}

#[test]
fn numbers_round_up() {
    assert_eq!([div_ceil(0, 3), div_ceil(6, 3), div_ceil(7, 3)], [0, 2, 3]);
    assert_eq!(
        [next_power_of_two(0), next_power_of_two(1), next_power_of_two(5), next_power_of_two(8)],
        [1, 1, 8, 8]
    );
}

#[test]
fn work_is_cut_for_a_pool() {
    assert_eq!(chunk_plan(100, 4), (12, 9));
    assert_eq!(chunk_plan(5, 4), (5, 1));
    assert_eq!(chunk_plan(10, 0), (3, 4));
}

fn quad(n: u32) -> Mesh<u32> {
    let mut mesh = Mesh::new();
    for k in 0..4 {
        mesh.vertex(n + k);
    }
    mesh.triangle(0, 1, 2);
    mesh.triangle(0, 2, 3);
    mesh
}

#[test]
fn merged_meshes_keep_their_triangles() {
    let merged = merge(&vec![quad(10), Mesh::new(), quad(20)]);
    assert_eq!(merged.vertices, vec![10, 11, 12, 13, 20, 21, 22, 23]);
    assert_eq!(merged.indices, vec![0, 1, 2, 0, 2, 3, 4, 5, 6, 4, 6, 7]);
    // In groups or at once.
    let pair = merge(&vec![quad(20), quad(30)]);
    let grouped = merge(&vec![quad(10), pair]);
    let at_once = merge(&vec![quad(10), quad(20), quad(30)]);
    assert_eq!(grouped.vertices, at_once.vertices);
    assert_eq!(grouped.indices, at_once.indices);
}

#[test]
fn ribbons_connect_two_rows() {
    let mut mesh: Mesh<u32> = Mesh::new();
    for k in 0..9 {
        mesh.vertex(k);
    }
    mesh.ribbon(1);
    assert_eq!(mesh.indices, vec![1, 2, 5, 2, 6, 5, 2, 3, 6, 3, 7, 6, 3, 4, 7, 4, 8, 7]);
}

#[test]
fn records_are_packed() {
    let layout = pair_layout(
        StepMode::Instance,
        AttributeFormat::Float32x4,
        16,
        AttributeFormat::Uint32,
        4,
        3,
    );
    assert_eq!((layout.stride, layout.attributes.len()), (20, 2));
    assert_eq!((layout.attributes[1].offset, layout.attributes[1].location), (16, 4));
}
