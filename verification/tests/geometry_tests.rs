use raytracer::geometry::Sphere;
use raytracer::ray::Ray;
use raytracer::vec3::Vec3;
use raytracer::RenderError;

const ONE: i64 = 65536;

#[test]
fn zero_radius_is_rejected() {
    let r = Sphere::new(Vec3::zero(), 0);
    assert!(matches!(r, Err(RenderError::NonPositiveRadius)));
    let r2 = Sphere::new(Vec3::zero(), -ONE);
    assert!(matches!(r2, Err(RenderError::NonPositiveRadius)));
}

#[test]
fn ray_through_center_hits_at_distance_minus_radius() {
    // Sphere ten units ahead on the z axis, radius two; ray from the origin
    // straight at the center: nearest distance is |origin - center| - radius.
    let sphere = Sphere::new(Vec3::new(0, 0, 10 * ONE), 2 * ONE).unwrap();
    let ray = Ray::new(Vec3::new(0, 0, ONE), Vec3::zero());
    let t = sphere.get_intersection(&ray);
    assert_eq!(t, Some(8 * ONE));
}

#[test]
fn ray_beyond_radius_misses() {
    // Closest approach is three units, radius two: no intersection.
    let sphere = Sphere::new(Vec3::new(3 * ONE, 0, 10 * ONE), 2 * ONE).unwrap();
    let ray = Ray::new(Vec3::new(0, 0, ONE), Vec3::zero());
    assert_eq!(sphere.get_intersection(&ray), None);
}

#[test]
fn tangent_ray_returns_single_root() {
    // Closest approach equals the radius: the two roots coincide at the
    // closest point, ten units out.
    let sphere = Sphere::new(Vec3::new(2 * ONE, 0, 10 * ONE), 2 * ONE).unwrap();
    let ray = Ray::new(Vec3::new(0, 0, ONE), Vec3::zero());
    assert_eq!(sphere.get_intersection(&ray), Some(10 * ONE));
}

#[test]
fn hit_behind_origin_is_discarded() {
    // Sphere behind the ray: both roots negative, no intersection.
    let sphere = Sphere::new(Vec3::new(0, 0, -10 * ONE), 2 * ONE).unwrap();
    let ray = Ray::new(Vec3::new(0, 0, ONE), Vec3::zero());
    assert_eq!(sphere.get_intersection(&ray), None);
}

#[test]
fn origin_inside_returns_forward_root() {
    // Origin inside the sphere: the near root is behind, the far root ahead.
    let sphere = Sphere::new(Vec3::new(0, 0, ONE), 2 * ONE).unwrap();
    let ray = Ray::new(Vec3::new(0, 0, ONE), Vec3::zero());
    assert_eq!(sphere.get_intersection(&ray), Some(3 * ONE));
}

#[test]
fn normal_points_away_from_center() {
    let sphere = Sphere::new(Vec3::new(ONE, ONE, ONE), ONE).unwrap();
    let point = Vec3::new(ONE, ONE, 2 * ONE + 3);
    let normal = sphere.get_normal_at(point);
    let offset = Vec3::sub(point, Vec3::new(ONE, ONE, ONE));
    assert!(Vec3::dot(normal, offset) > 0);

    let point2 = Vec3::new(0, ONE, ONE);
    let normal2 = sphere.get_normal_at(point2);
    let offset2 = Vec3::sub(point2, Vec3::new(ONE, ONE, ONE));
    assert!(Vec3::dot(normal2, offset2) > 0);
}
