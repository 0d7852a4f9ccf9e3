use nalgebra_glm as glm;
use ray_tracing::accumulation::Accumulator;

fn v(x: f32, y: f32, z: f32) -> glm::Vec3 {
    glm::vec3(x, y, z)
}

#[test]
fn new_starts_with_no_pass() {
    let acc = Accumulator::new(vec![v(1.0, 2.0, 3.0); 4], 2);
    assert_eq!(acc.samples, 0);
    assert_eq!(acc.max_samples, 2);
    assert_eq!(acc.pixels, vec![v(1.0, 2.0, 3.0); 4]);
    assert!(!acc.is_done());
    assert!(acc.needs_pass());
}

#[test]
fn add_pass_sums_per_pixel() {
    let mut acc = Accumulator::new(vec![v(0.0, 0.0, 0.0); 2], 4);
    acc.add_pass(&vec![v(0.5, 0.25, 1.0), v(1.0, 2.0, 3.0)]);
    acc.add_pass(&vec![v(0.5, 0.25, 1.0), v(-1.0, 0.5, 0.0)]);
    assert_eq!(acc.samples, 2);
    assert_eq!(acc.pixels, vec![v(1.0, 0.5, 2.0), v(0.0, 2.5, 3.0)]);
}

#[test]
fn passes_count_exactly_and_sum_estimates() {
    let mut acc = Accumulator::new(vec![v(0.0, 0.0, 0.0); 3], 10);
    for k in 0..5 {
        let e = k as f32;
        acc.add_pass(&vec![v(e, 1.0, 0.0), v(0.0, e, 2.0), v(1.0, 1.0, 1.0)]);
    }
    assert_eq!(acc.samples, 5);
    assert_eq!(acc.pixels, vec![v(10.0, 5.0, 0.0), v(0.0, 10.0, 10.0), v(5.0, 5.0, 5.0)]);
}

#[test]
fn done_after_max_samples() {
    let mut acc = Accumulator::new(vec![v(0.0, 0.0, 0.0); 1], 2);
    acc.add_pass(&vec![v(1.0, 1.0, 1.0)]);
    assert!(!acc.is_done());
    acc.add_pass(&vec![v(1.0, 1.0, 1.0)]);
    assert!(acc.is_done());
    assert!(!acc.needs_pass());
}

#[test]
fn new_camera_alone_resets() {
    let mut acc = Accumulator::new(vec![v(0.0, 0.0, 0.0); 2], 8);
    acc.add_pass(&vec![v(1.0, 2.0, 3.0), v(4.0, 5.0, 6.0)]);
    acc.apply_env(true, false);
    assert_eq!(acc.samples, 0);
    assert_eq!(acc.pixels, vec![v(0.0, 0.0, 0.0); 2]);
}

#[test]
fn new_scene_alone_resets() {
    let mut acc = Accumulator::new(vec![v(0.0, 0.0, 0.0); 2], 8);
    acc.add_pass(&vec![v(1.0, 2.0, 3.0), v(4.0, 5.0, 6.0)]);
    acc.add_pass(&vec![v(1.0, 2.0, 3.0), v(4.0, 5.0, 6.0)]);
    acc.apply_env(false, true);
    assert_eq!(acc.samples, 0);
    assert_eq!(acc.pixels, vec![v(0.0, 0.0, 0.0); 2]);
    assert!(acc.needs_pass());
}

#[test]
fn empty_patch_keeps_everything() {
    let mut acc = Accumulator::new(vec![v(0.0, 0.0, 0.0); 2], 8);
    acc.add_pass(&vec![v(1.0, 2.0, 3.0), v(4.0, 5.0, 6.0)]);
    acc.apply_env(false, false);
    assert_eq!(acc.samples, 1);
    assert_eq!(acc.pixels, vec![v(1.0, 2.0, 3.0), v(4.0, 5.0, 6.0)]);
}

#[test]
fn reset_clears_sums() {
    let mut acc = Accumulator::new(vec![v(7.0, 7.0, 7.0); 3], 8);
    acc.reset();
    assert_eq!(acc.samples, 0);
    assert_eq!(acc.pixels, vec![v(0.0, 0.0, 0.0); 3]);
}

#[test]
fn pixel_index_is_row_major() {
    assert_eq!(ray_tracing::accumulation::get_index(0, 4), (0, 0));
    assert_eq!(ray_tracing::accumulation::get_index(6, 4), (2, 1));
    assert_eq!(ray_tracing::accumulation::get_index(11, 4), (3, 2));
    assert_eq!(ray_tracing::accumulation::get_index(5, 1), (0, 5));
}
