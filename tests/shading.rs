use nalgebra_glm as glm;
use ray_tracing::shading::Path;

#[test]
fn no_budget_gives_black() {
    let p = Path::new(0);
    assert!(!p.wants_ray());
    assert_eq!(p.radiance(), glm::vec3(0.0, 0.0, 0.0));
}

#[test]
fn immediate_miss_gives_sky() {
    let mut p = Path::new(3);
    assert!(p.wants_ray());
    p.miss(glm::vec3(0.75, 0.85, 1.0));
    assert!(!p.wants_ray());
    assert_eq!(p.radiance(), glm::vec3(0.75, 0.85, 1.0));
}

#[test]
fn bounces_tint_the_sky() {
    let mut p = Path::new(4);
    p.scatter(glm::vec3(0.5, 1.0, 0.25));
    p.scatter(glm::vec3(0.5, 0.5, 2.0));
    assert!(p.wants_ray());
    p.miss(glm::vec3(1.0, 2.0, 4.0));
    assert_eq!(p.attenuations.len(), 2);
    assert_eq!(p.bounces_left, 2);
    assert_eq!(p.radiance(), glm::vec3(0.25, 1.0, 2.0));
}

#[test]
fn absorbed_path_is_black() {
    let mut p = Path::new(4);
    p.scatter(glm::vec3(0.5, 1.0, 0.25));
    p.absorb();
    assert!(!p.wants_ray());
    assert_eq!(p.radiance(), glm::vec3(0.0, 0.0, 0.0));
}

#[test]
fn spent_budget_is_black() {
    let mut p = Path::new(2);
    p.scatter(glm::vec3(1.0, 1.0, 1.0));
    p.scatter(glm::vec3(1.0, 1.0, 1.0));
    assert!(!p.wants_ray());
    assert_eq!(p.bounces_left, 0);
    assert_eq!(p.radiance(), glm::vec3(0.0, 0.0, 0.0));
}

#[test]
fn single_bounce_then_sky_is_albedo_times_sky() {
    // one diffuse white bounce, then the sky: the radiance is the sky color
    let mut p = Path::new(2);
    p.scatter(glm::vec3(1.0, 1.0, 1.0));
    p.miss(glm::vec3(0.6, 0.76, 1.0));
    assert_eq!(p.radiance(), glm::vec3(0.6, 0.76, 1.0));
}
