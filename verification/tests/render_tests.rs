use raytracer::camera::{Camera, CameraConfig};
use raytracer::color::Color;
use raytracer::geometry::{Geometry, Sphere};
use raytracer::light::Light;
use raytracer::material::Material;
use raytracer::ray::{render, Ray};
use raytracer::scene::Scene;
use raytracer::surface::Surface;
use raytracer::vec3::Vec3;
use raytracer::RenderError;

const ONE: i64 = 65536;

fn forward_camera(width: usize, height: usize) -> Camera {
    Camera::new(
        CameraConfig::standard(),
        Vec3::zero(),
        Vec3::new(0, 0, ONE),
        width,
        height,
    )
    .unwrap()
}

#[test]
fn camera_rejects_direction_parallel_to_up() {
    let r = Camera::new(
        CameraConfig::standard(),
        Vec3::zero(),
        Vec3::new(0, -ONE, 0),
        800,
        600,
    );
    assert!(matches!(r, Err(RenderError::DegenerateCamera)));
}

#[test]
fn camera_basis_is_orthonormal_for_axis_direction() {
    let camera = forward_camera(800, 600);
    let x = camera.plane_direction_x;
    let y = camera.plane_direction_y;
    assert_eq!(Vec3::dot(x, x), ONE);
    assert_eq!(Vec3::dot(y, y), ONE);
    assert_eq!(Vec3::dot(x, y), 0);
}

#[test]
fn camera_basis_is_near_orthonormal_for_skew_direction() {
    // A unit direction of roughly (1, 2, 3) / sqrt(14).
    let dir = Vec3::new(17516, 35031, 52547);
    let camera = Camera::new(CameraConfig::standard(), Vec3::zero(), dir, 800, 600).unwrap();
    let x = camera.plane_direction_x;
    let y = camera.plane_direction_y;
    let tolerance = 64;
    assert!((Vec3::dot(x, x) - ONE).abs() <= tolerance);
    assert!((Vec3::dot(y, y) - ONE).abs() <= tolerance);
    assert!(Vec3::dot(x, y).abs() <= tolerance);
}

#[test]
fn from_pixel_rejects_out_of_bounds() {
    let camera = forward_camera(800, 600);
    assert!(matches!(
        Ray::from_pixel(&camera, 800, 0),
        Err(RenderError::PixelOutOfBounds)
    ));
    assert!(matches!(
        Ray::from_pixel(&camera, 0, 600),
        Err(RenderError::PixelOutOfBounds)
    ));
    assert!(Ray::from_pixel(&camera, 799, 599).is_ok());
}

#[test]
fn center_pixel_ray_points_forward() {
    let camera = forward_camera(800, 600);
    let ray = Ray::from_pixel(&camera, 400, 300).unwrap();
    assert_eq!(ray.ray_origin, Vec3::zero());
    // The half-pixel offsets are tiny next to the focal distance.
    assert!(ray.ray_direction.z > 65500);
}

#[test]
fn nearer_sphere_wins_regardless_of_order() {
    let camera = forward_camera(16, 16);
    // Full ambient light, no reflection: a hit renders the material color.
    let mut scene = Scene::new(camera, ONE);
    let red = Material::new(Color::from_hex(0xFF0000), 0, 0, 1);
    let blue = Material::new(Color::from_hex(0x0000FF), 0, 0, 1);
    let far = Sphere::new(Vec3::new(0, 0, 50 * ONE), 5 * ONE).unwrap();
    let near = Sphere::new(Vec3::new(0, 0, 20 * ONE), 5 * ONE).unwrap();
    // The farther surface is registered first.
    scene.add_surface(Surface::new(Geometry::Sphere(far), red));
    scene.add_surface(Surface::new(Geometry::Sphere(near), blue));
    let ray = Ray::new(Vec3::new(0, 0, ONE), Vec3::zero());
    let c = ray.trace_once(&scene, 0);
    assert_eq!(c.r, 0);
    assert_eq!(c.b, ONE);
}

#[test]
fn miss_returns_background_black() {
    let camera = forward_camera(16, 16);
    let mut scene = Scene::new(camera, ONE);
    let red = Material::new(Color::from_hex(0xFF0000), 0, 0, 1);
    let sphere = Sphere::new(Vec3::new(100 * ONE, 0, 50 * ONE), 5 * ONE).unwrap();
    scene.add_surface(Surface::new(Geometry::Sphere(sphere), red));
    let ray = Ray::new(Vec3::new(0, 0, ONE), Vec3::zero());
    let c = ray.trace_once(&scene, 1);
    assert_eq!((c.r, c.g, c.b), (0, 0, 0));
}

#[test]
fn lit_sphere_is_brighter_than_ambient_alone() {
    let camera = forward_camera(16, 16);
    // Ambient at 0.25.
    let mut scene = Scene::new(camera, ONE / 4);
    let white = Material::new(Color::new(ONE, ONE, ONE), 0, 0, 1);
    let sphere = Sphere::new(Vec3::new(0, 0, 20 * ONE), 5 * ONE).unwrap();
    scene.add_surface(Surface::new(Geometry::Sphere(sphere), white));
    let ray = Ray::new(Vec3::new(0, 0, ONE), Vec3::zero());
    let unlit = ray.trace_once(&scene, 0);
    assert_eq!(unlit.r, ONE / 4);
    // A light behind the camera shines on the hit point.
    scene.add_light(Light::new(Vec3::new(0, 0, -10 * ONE), ONE));
    let lit = ray.trace_once(&scene, 0);
    assert!(lit.r > unlit.r);
}

#[test]
fn reflective_floor_mixes_in_reflected_color() {
    let camera = forward_camera(16, 16);
    let mut scene = Scene::new(camera, ONE);
    // A mirror-like sphere straight ahead and a red sphere behind the camera.
    let mirror = Material::new(Color::new(0, 0, 0), ONE / 2, 0, 1);
    let red = Material::new(Color::from_hex(0xFF0000), 0, 0, 1);
    scene.add_surface(Surface::new(
        Geometry::Sphere(Sphere::new(Vec3::new(0, 0, 20 * ONE), 5 * ONE).unwrap()),
        mirror,
    ));
    scene.add_surface(Surface::new(
        Geometry::Sphere(Sphere::new(Vec3::new(0, 0, -40 * ONE), 5 * ONE).unwrap()),
        red,
    ));
    let ray = Ray::new(Vec3::new(0, 0, ONE), Vec3::zero());
    // With no depth budget the mirror stays black.
    let flat = ray.trace_once(&scene, 0);
    assert_eq!(flat.r, 0);
    // With one bounce the reflected red shows up at half weight.
    let bounced = ray.trace_once(&scene, 1);
    assert!(bounced.r > 0);
}

#[test]
fn renders_single_sphere_scene() {
    // A sphere of radius 100 centered at (300, 200, 0), camera at the origin
    // aimed at it, 800 x 600 output: pixels whose ray meets the sphere render
    // the material-derived color, all others the black background.
    let dir = Vec3::new(54542, 36361, 0);
    let camera = Camera::new(CameraConfig::standard(), Vec3::zero(), dir, 800, 600).unwrap();
    let mut scene = Scene::new(camera, 39321);
    let material = Material::new(Color::from_hex(0x338DFF), ONE / 2, 0, 1);
    let sphere = Sphere::new(Vec3::new(300 * ONE, 200 * ONE, 0), 100 * ONE).unwrap();
    scene.add_surface(Surface::new(Geometry::Sphere(sphere), material));
    let buffer = render(&scene, 1);
    assert_eq!(buffer.len(), 800 * 600);
    // The center pixel looks straight at the sphere: it renders the ambient
    // share of the material's blue.
    let center = buffer[300 * 800 + 400];
    assert_eq!((center.r, center.g), (0, 0));
    assert!(center.b > 0);
    // A corner pixel looks far past the sphere: background black.
    let corner = buffer[0];
    assert_eq!((corner.r, corner.g, corner.b), (0, 0, 0));
    // Every pixel is either background or sphere-shaded blue.
    for c in buffer.iter() {
        assert_eq!(c.r, 0);
        assert_eq!(c.g, 0);
    }
}

#[test]
fn scene_appends_keep_order_and_count() {
    let camera = forward_camera(8, 8);
    let mut scene = Scene::new(camera, ONE / 2);
    let m = Material::new(Color::new(ONE, 0, 0), 0, 0, 1);
    let s1 = Surface::new(
        Geometry::Sphere(Sphere::new(Vec3::new(0, 0, 10 * ONE), ONE).unwrap()),
        m,
    );
    let s2 = Surface::new(
        Geometry::Sphere(Sphere::new(Vec3::new(0, 0, 30 * ONE), ONE).unwrap()),
        m,
    );
    scene.add_surface(s1);
    scene.add_surfaces(vec![s2, s1]);
    assert_eq!(scene.surfaces.len(), 3);
    assert_eq!(scene.surfaces[1], s2);
    scene.add_light(Light::new(Vec3::zero(), ONE));
    scene.add_lights(vec![Light::new(Vec3::new(ONE, 0, 0), ONE)]);
    assert_eq!(scene.lights.len(), 2);
}
