use raytracer::light::Light;
use raytracer::vec3::Vec3;

const ONE: i64 = 65536;

#[test]
fn direction_points_from_light_to_point() {
    let light = Light::new(Vec3::new(0, -10 * ONE, 0), ONE);
    let d = light.direction(Vec3::zero()).unwrap();
    assert_eq!(d, Vec3::new(0, ONE, 0));
}

#[test]
fn direction_degenerates_at_the_light() {
    let light = Light::new(Vec3::zero(), ONE);
    assert!(light.direction(Vec3::zero()).is_none());
}

#[test]
fn diffuse_is_alignment_times_intensity() {
    let light = Light::new(Vec3::new(0, -10 * ONE, 0), ONE);
    let ld = Vec3::new(0, ONE, 0);
    // Normal aligned with the light direction: full contribution.
    assert_eq!(light.difused_highlight(ld, Vec3::new(0, ONE, 0)), ONE);
    // Normal against the light direction: clamped to zero.
    assert_eq!(light.difused_highlight(ld, Vec3::new(0, -ONE, 0)), 0);
}

#[test]
fn diffuse_scales_with_intensity() {
    let light = Light::new(Vec3::new(0, -10 * ONE, 0), ONE / 2);
    let ld = Vec3::new(0, ONE, 0);
    assert_eq!(light.difused_highlight(ld, Vec3::new(0, ONE, 0)), ONE / 2);
}

#[test]
fn specular_reflects_about_the_normal() {
    let light = Light::new(Vec3::new(0, -10 * ONE, 0), ONE);
    let ld = Vec3::new(0, ONE, 0);
    let normal = Vec3::new(0, ONE, 0);
    // The mirrored light direction is (0, -1, 0); an eye looking along the
    // light direction sees the full highlight.
    let ray_direction = Vec3::new(0, ONE, 0);
    assert_eq!(light.specular_highlight(ld, normal, ray_direction, 1), ONE);
    // Looking the other way, the highlight clamps to zero.
    let away = Vec3::new(0, -ONE, 0);
    assert_eq!(light.specular_highlight(ld, normal, away, 1), 0);
}

#[test]
fn specular_exponent_dims_partial_alignment() {
    let light = Light::new(Vec3::new(0, -10 * ONE, 0), ONE);
    let ld = Vec3::new(0, ONE, 0);
    let normal = Vec3::new(0, ONE, 0);
    // A diagonal eye direction sees a partial highlight, and squaring the
    // base makes it strictly dimmer.
    let diag = Vec3::new(46341, 46341, 0);
    let once = light.specular_highlight(ld, normal, diag, 1);
    let twice = light.specular_highlight(ld, normal, diag, 2);
    assert!(0 < twice && twice < once && once < ONE);
}
