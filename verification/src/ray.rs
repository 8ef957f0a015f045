//! Per-pixel rays: construction from a camera pixel, and depth-limited
//! tracing against a scene. The whole tracing computation is pinned down by
//! `trace_spec`, which mirrors every arithmetic step exactly.

use vstd::prelude::*;
use crate::fx::{
    SCALE, fmul, fx_mul, lemma_prod_bound, lemma_tdiv_le, lemma_fmul_unit_range, lemma_fmul_nonneg,
};
use crate::vec3::{
    Vec3, within, unit_band, vadd, vsub, vscale, vnormalize, dots, within_check,
    in_unit_band, lemma_band_within, VEC_LIMIT,
};
use crate::color::{Color, cap, color_valid, clamp_unit, wavg};
use crate::light::{
    Light, light_wf, light_dir_spec, diffuse_spec, specular_spec, lemma_unit_dot_bound,
    lemma_mirrored_small,
};
use crate::material::Material;
use crate::geometry::{geom_isect, geom_normal_defined, geom_normal, T_LIMIT};
use crate::surface::Surface;
use crate::scene::{Scene, scene_wf};
use crate::camera::{Camera, camera_wf};
use crate::{RenderError, WORLD_LIMIT};

verus! {

#[derive(Clone, Copy, Debug, PartialEq, Eq, Structural)]
pub struct Ray {
    pub ray_direction: Vec3,
    pub ray_origin: Vec3,
}

/// Every traced ray keeps a direction in the unit band and an origin within
/// twice the world bound (reflected rays start on surfaces, which may sit up
/// to twice the bound out).
pub open spec fn ray_wf(r: Ray) -> bool {
    &&& unit_band(r.ray_direction@)
    &&& within(r.ray_origin@, 2 * WORLD_LIMIT as int)
}

/// The fixed-point offset of a pixel's center from the middle of the grid.
pub open spec fn pixel_offset(i: int, extent: int) -> int {
    i * SCALE + SCALE / 2 - extent * (SCALE / 2)
}

/// The world-space point on the view plane a pixel maps to.
pub open spec fn pixel_vector_spec(c: Camera, x: int, y: int) -> (int, int, int) {
    vadd(
        vadd(c.plane_center@, vscale(c.plane_direction_x@, pixel_offset(x, c.width as int))),
        vscale(c.plane_direction_y@, pixel_offset(y, c.height as int)),
    )
}

/// Whether a pixel yields a usable ray: in bounds, and the offset from the
/// camera position to the view-plane point normalizes into the unit band.
pub open spec fn pixel_ray_ok(c: Camera, x: int, y: int) -> bool {
    let diff = vsub(pixel_vector_spec(c, x, y), c.position@);
    &&& 0 <= x < c.width
    &&& 0 <= y < c.height
    &&& dots(diff, diff) >= 1
    &&& unit_band(vnormalize(diff))
}

/// The black background.
pub open spec fn background() -> (int, int, int) {
    (0int, 0int, 0int)
}

/// The nearest strictly positive hit among the first `n` surfaces, as the
/// surface index and the distance; on equal distances the earlier surface is
/// kept.
pub open spec fn best_hit_upto(
    surfaces: Seq<Surface>,
    d: (int, int, int),
    o: (int, int, int),
    n: nat,
) -> Option<(int, int)>
    decreases n,
{
    if n == 0 {
        None::<(int, int)>
    } else {
        let prev = best_hit_upto(surfaces, d, o, (n - 1) as nat);
        let cur = geom_isect(surfaces[n - 1].geometry, d, o);
        if cur is Some && cur.unwrap() > 0 {
            match prev {
                None => Some(((n - 1) as int, cur.unwrap())),
                Some(p) => if cur.unwrap() < p.1 {
                    Some(((n - 1) as int, cur.unwrap()))
                } else {
                    Some(p)
                },
            }
        } else {
            prev
        }
    }
}

/// The summed diffuse and specular contributions of the first `k` lights at a
/// surface point; a light the point (nearly) coincides with contributes
/// nothing.
pub open spec fn light_sum_upto(
    lights: Seq<Light>,
    point: (int, int, int),
    normal: (int, int, int),
    ray_direction: (int, int, int),
    specularity: nat,
    k: nat,
) -> int
    decreases k,
{
    if k == 0 {
        0
    } else {
        let rest = light_sum_upto(lights, point, normal, ray_direction, specularity, (k - 1) as nat);
        let l = lights[k - 1];
        match light_dir_spec(l, point) {
            Some(ld) => rest + diffuse_spec(l, ld, normal) + specular_spec(
                l,
                ld,
                normal,
                ray_direction,
                specularity,
            ),
            None => rest,
        }
    }
}

/// The shaded color at a hit before any reflection: the ambient term plus the
/// material color weighted by the summed light contributions, channels
/// clamped to one at each composition step.
pub open spec fn local_color(
    ambient: int,
    lights: Seq<Light>,
    m: Material,
    point: (int, int, int),
    normal: (int, int, int),
    ray_direction: (int, int, int),
) -> (int, int, int) {
    let sum = light_sum_upto(lights, point, normal, ray_direction, m.specularity as nat, lights.len());
    (
        cap(fmul(ambient, m.color.r as int) + cap(fmul(m.color.r as int, sum))),
        cap(fmul(ambient, m.color.g as int) + cap(fmul(m.color.g as int, sum))),
        cap(fmul(ambient, m.color.b as int) + cap(fmul(m.color.b as int, sum))),
    )
}

/// A direction mirrored about a surface normal.
pub open spec fn reflect_spec(d: (int, int, int), n: (int, int, int)) -> (int, int, int) {
    vsub(d, vscale(n, 2 * dots(n, d)))
}

/// The traced color of a ray: black on a miss or a degenerate hit; otherwise
/// the local shading of the nearest positive hit, mixed with the recursively
/// traced reflection while the material reflects and the depth budget lasts.
pub open spec fn trace_spec(
    surfaces: Seq<Surface>,
    lights: Seq<Light>,
    ambient: int,
    d: (int, int, int),
    o: (int, int, int),
    depth: nat,
) -> (int, int, int)
    decreases depth,
{
    match best_hit_upto(surfaces, d, o, surfaces.len()) {
        None => background(),
        Some(h) => {
            let surf = surfaces[h.0];
            let point = vadd(o, vscale(d, h.1));
            if !within(point, 2 * WORLD_LIMIT as int) || !geom_normal_defined(
                surf.geometry,
                point,
            ) {
                background()
            } else {
                let normal = geom_normal(surf.geometry, point);
                let local = local_color(ambient, lights, surf.material, point, normal, d);
                if surf.material.reflectivity > 0 && depth > 0 {
                    let refl = reflect_spec(d, normal);
                    if dots(refl, refl) >= 1 && unit_band(vnormalize(refl)) {
                        let rc = trace_spec(
                            surfaces,
                            lights,
                            ambient,
                            vnormalize(refl),
                            point,
                            (depth - 1) as nat,
                        );
                        let w = clamp_unit(surf.material.reflectivity as int);
                        (
                            wavg(rc.0, w, local.0, SCALE - w),
                            wavg(rc.1, w, local.1, SCALE - w),
                            wavg(rc.2, w, local.2, SCALE - w),
                        )
                    } else {
                        local
                    }
                } else {
                    local
                }
            }
        },
    }
}

/// The color a pixel renders to: the traced color of its ray, or background
/// where the pixel's ray degenerates.
pub open spec fn pixel_color(
    camera: Camera,
    surfaces: Seq<Surface>,
    lights: Seq<Light>,
    ambient: int,
    x: int,
    y: int,
    depth: nat,
) -> (int, int, int) {
    let diff = vsub(pixel_vector_spec(camera, x, y), camera.position@);
    if dots(diff, diff) >= 1 && unit_band(vnormalize(diff)) {
        trace_spec(surfaces, lights, ambient, vnormalize(diff), camera.position@, depth)
    } else {
        background()
    }
}

impl Ray {
    pub fn new(ray_direction: Vec3, ray_origin: Vec3) -> (r: Self)
        requires
            unit_band(ray_direction@),
            within(ray_origin@, 2 * WORLD_LIMIT as int),
        ensures
            r == (Ray { ray_direction, ray_origin }),
            ray_wf(r),
    {
        Ray { ray_direction, ray_origin }
    }

    /// The ray for a pixel: from the camera position through the pixel's
    /// center on the view plane. Out-of-range coordinates are rejected, and
    /// so is a pixel whose ray direction cannot be normalized at this scale.
    pub fn from_pixel(camera: &Camera, x: usize, y: usize) -> (r: Result<Self, RenderError>)
        requires
            camera_wf(*camera),
        ensures
            r is Ok <==> pixel_ray_ok(*camera, x as int, y as int),
            r is Ok ==> {
                let ray = r.unwrap();
                &&& ray.ray_origin == camera.position
                &&& ray.ray_direction@ == vnormalize(
                    vsub(pixel_vector_spec(*camera, x as int, y as int), camera.position@),
                )
                &&& ray_wf(ray)
            },
            !(x < camera.width && y < camera.height) ==> r == Err::<Ray, RenderError>(
                RenderError::PixelOutOfBounds,
            ),
            x < camera.width && y < camera.height && !pixel_ray_ok(*camera, x as int, y as int)
                ==> r == Err::<Ray, RenderError>(RenderError::DegenerateRay),
    {
        if x >= camera.width || y >= camera.height {
            return Err(RenderError::PixelOutOfBounds);
        }
        let px: i64 = (x as i64) * SCALE + 32768 - (camera.width as i64) * 32768;
        let py: i64 = (y as i64) * SCALE + 32768 - (camera.height as i64) * 32768;
        proof {
            lemma_pixel_scale_bounds(camera.plane_direction_x@, px as int, 131072, 0x80000000);
            lemma_pixel_scale_bounds(camera.plane_direction_y@, py as int, 1048576, 0x400000000);
        }
        let vec_x = Vec3::scale(camera.plane_direction_x, px);
        let vec_y = Vec3::scale(camera.plane_direction_y, py);
        let pixel_vector = Vec3::add(Vec3::add(camera.plane_center, vec_x), vec_y);
        let diff = Vec3::sub(pixel_vector, camera.position);
        let q = diff.len_squared();
        if q < 1 {
            return Err(RenderError::DegenerateRay);
        }
        let dir = diff.normalize();
        if !in_unit_band(dir) {
            return Err(RenderError::DegenerateRay);
        }
        Ok(Ray::new(dir, camera.position))
    }

    /// The color this ray resolves to against a scene: the nearest surface
    /// with a strictly positive intersection distance is shaded with the
    /// ambient term and every light's diffuse and specular contributions;
    /// while the material reflects and `depth` allows, a mirrored ray is
    /// traced recursively and mixed in by the reflectivity. A miss yields the
    /// background.
    pub fn trace_once(&self, scene: &Scene, depth: u32) -> (c: Color)
        requires
            ray_wf(*self),
            scene_wf(*scene),
        ensures
            c.r == trace_spec(
                scene.surfaces@,
                scene.lights@,
                scene.ambient_coefficient as int,
                self.ray_direction@,
                self.ray_origin@,
                depth as nat,
            ).0,
            c.g == trace_spec(
                scene.surfaces@,
                scene.lights@,
                scene.ambient_coefficient as int,
                self.ray_direction@,
                self.ray_origin@,
                depth as nat,
            ).1,
            c.b == trace_spec(
                scene.surfaces@,
                scene.lights@,
                scene.ambient_coefficient as int,
                self.ray_direction@,
                self.ray_origin@,
                depth as nat,
            ).2,
            color_valid(c),
        decreases depth,
    {
        let d = self.ray_direction;
        let o = self.ray_origin;
        let n = scene.surfaces.len();
        let mut i: usize = 0;
        let mut found = false;
        let mut best_idx: usize = 0;
        let mut best_t: i64 = 0;
        while i < n
            invariant
                ray_wf(*self),
                scene_wf(*scene),
                d == self.ray_direction,
                o == self.ray_origin,
                n == scene.surfaces@.len(),
                0 <= i <= n,
                !found ==> best_hit_upto(scene.surfaces@, d@, o@, i as nat) is None,
                found ==> best_hit_upto(scene.surfaces@, d@, o@, i as nat) == Some(
                    (best_idx as int, best_t as int),
                ),
                found ==> 0 < best_t <= T_LIMIT && best_idx < i,
            decreases n - i,
        {
            let surface = scene.surfaces[i];
            proof {
                assert(crate::surface::surface_wf(scene.surfaces@[i as int]));
            }
            match surface.geometry.get_intersection(self) {
                Some(t) => {
                    if t > 0 && (!found || t < best_t) {
                        best_t = t;
                        best_idx = i;
                        found = true;
                    }
                },
                None => {},
            }
            i = i + 1;
        }
        if !found {
            return Color::new(0, 0, 0);
        }
        let surf = scene.surfaces[best_idx];
        proof {
            assert(crate::surface::surface_wf(scene.surfaces@[best_idx as int]));
            lemma_band_within(d@);
            lemma_prod_bound(d@.0, best_t as int, 131072, T_LIMIT as int);
            lemma_prod_bound(d@.1, best_t as int, 131072, T_LIMIT as int);
            lemma_prod_bound(d@.2, best_t as int, 131072, T_LIMIT as int);
            lemma_tdiv_le(d@.0 * best_t, SCALE as int, 0x8000000000000000, SCALE as int,
                0x2000000000000);
            lemma_tdiv_le(d@.1 * best_t, SCALE as int, 0x8000000000000000, SCALE as int,
                0x2000000000000);
            lemma_tdiv_le(d@.2 * best_t, SCALE as int, 0x8000000000000000, SCALE as int,
                0x2000000000000);
        }
        let point = Vec3::add(o, Vec3::scale(d, best_t));
        if !within_check(point, 2 * WORLD_LIMIT) {
            return Color::new(0, 0, 0);
        }
        if !surf.geometry.normal_defined(point) {
            return Color::new(0, 0, 0);
        }
        let normal = surf.geometry.get_normal_at(point);
        let e = surf.material.specularity;
        let nl = scene.lights.len();
        let mut k: usize = 0;
        let mut sum: i64 = 0;
        while k < nl
            invariant
                scene_wf(*scene),
                within(point@, 2 * WORLD_LIMIT as int),
                within(normal@, 2 * SCALE as int),
                within(d@, 2 * SCALE as int),
                nl == scene.lights@.len(),
                nl <= 1024,
                0 <= k <= nl,
                0 <= sum <= k * 0x40000000,
                sum == light_sum_upto(scene.lights@, point@, normal@, d@, e as nat, k as nat),
            decreases nl - k,
        {
            let light = scene.lights[k];
            proof {
                assert(light_wf(scene.lights@[k as int]));
            }
            match light.direction(point) {
                Some(ld) => {
                    let dh = light.difused_highlight(ld, normal);
                    let sh = light.specular_highlight(ld, normal, d, e);
                    sum = sum + dh + sh;
                },
                None => {},
            }
            k = k + 1;
        }
        let mc = surf.material.color;
        let amb = scene.ambient_coefficient;
        proof {
            lemma_fmul_unit_range(amb as int, mc.r as int);
            lemma_fmul_unit_range(amb as int, mc.g as int);
            lemma_fmul_unit_range(amb as int, mc.b as int);
            lemma_prod_bound(mc.r as int, sum as int, 65536, 0x10000000000);
            lemma_prod_bound(mc.g as int, sum as int, 65536, 0x10000000000);
            lemma_prod_bound(mc.b as int, sum as int, 65536, 0x10000000000);
            lemma_fmul_nonneg(mc.r as int, sum as int);
            lemma_fmul_nonneg(mc.g as int, sum as int);
            lemma_fmul_nonneg(mc.b as int, sum as int);
        }
        let ambient_col = Color::new(fx_mul(amb, mc.r), fx_mul(amb, mc.g), fx_mul(amb, mc.b));
        let lit = Color::new(fx_mul(mc.r, sum), fx_mul(mc.g, sum), fx_mul(mc.b, sum));
        let local = Color::add(ambient_col, lit);
        if surf.material.reflectivity > 0 && depth > 0 {
            proof {
                lemma_unit_dot_bound(normal@, d@);
            }
            let h = Vec3::dot(normal, d);
            proof {
                lemma_prod_bound(normal@.0, 2 * h, 131072, 1572864);
                lemma_prod_bound(normal@.1, 2 * h, 131072, 1572864);
                lemma_prod_bound(normal@.2, 2 * h, 131072, 1572864);
                lemma_mirrored_small(normal@, d@, h as int);
            }
            let refl = Vec3::sub(d, Vec3::scale(normal, 2 * h));
            let q = refl.len_squared();
            if q >= 1 {
                let rdir = refl.normalize();
                if in_unit_band(rdir) {
                    let bounce = Ray::new(rdir, point);
                    let rc = bounce.trace_once(scene, depth - 1);
                    return Color::blend(rc, local, surf.material.reflectivity);
                }
            }
        }
        local
    }
}

/// Of two surfaces both hit at a positive distance, the nearer one's shading
/// is returned, not the first-registered one's: here the second surface is
/// hit nearer, its hit point is sound and it does not reflect, and the traced
/// color is exactly its local shading.
pub proof fn lemma_nearest_hit_wins(
    surfaces: Seq<Surface>,
    lights: Seq<Light>,
    ambient: int,
    d: (int, int, int),
    o: (int, int, int),
    depth: nat,
    t0: int,
    t1: int,
)
    requires
        surfaces.len() == 2,
        geom_isect(surfaces[0].geometry, d, o) == Some(t0),
        geom_isect(surfaces[1].geometry, d, o) == Some(t1),
        0 < t1 < t0,
        within(vadd(o, vscale(d, t1)), 2 * WORLD_LIMIT as int),
        geom_normal_defined(surfaces[1].geometry, vadd(o, vscale(d, t1))),
        surfaces[1].material.reflectivity == 0,
    ensures
        best_hit_upto(surfaces, d, o, 2) == Some((1int, t1)),
        trace_spec(surfaces, lights, ambient, d, o, depth) == local_color(
            ambient,
            lights,
            surfaces[1].material,
            vadd(o, vscale(d, t1)),
            geom_normal(surfaces[1].geometry, vadd(o, vscale(d, t1))),
            d,
        ),
{
    assert(best_hit_upto(surfaces, d, o, 0) is None);
    assert(best_hit_upto(surfaces, d, o, 1) == Some((0int, t0)));
    assert(best_hit_upto(surfaces, d, o, 2) == Some((1int, t1)));
}

/// Scaling a basis vector by a pixel offset stays in range: the products fit
/// the rescale and the scaled components stay within `bq`.
proof fn lemma_pixel_scale_bounds(v: (int, int, int), s: int, bv: int, bq: int)
    requires
        within(v, bv),
        0 <= bv,
        -1073741824 <= s <= 1073741824,
        0 <= bq <= 0x7FFFFFFFFFFFFFFF,
        bv * 1073741824 <= bq * (SCALE as int),
    ensures
        i64::MIN * (SCALE as int) <= v.0 * s <= i64::MAX * (SCALE as int),
        i64::MIN * (SCALE as int) <= v.1 * s <= i64::MAX * (SCALE as int),
        i64::MIN * (SCALE as int) <= v.2 * s <= i64::MAX * (SCALE as int),
        within(vscale(v, s), bq),
{
    lemma_prod_bound(v.0, s, bv, 1073741824);
    lemma_prod_bound(v.1, s, bv, 1073741824);
    lemma_prod_bound(v.2, s, bv, 1073741824);
    assert(bq * (SCALE as int) <= i64::MAX * (SCALE as int)) by (nonlinear_arith)
        requires
            0 <= bq <= 0x7FFFFFFFFFFFFFFF,
            SCALE == 65536,
    ;
    lemma_tdiv_le(v.0 * s, SCALE as int, bv * 1073741824, SCALE as int, bq);
    lemma_tdiv_le(v.1 * s, SCALE as int, bv * 1073741824, SCALE as int, bq);
    lemma_tdiv_le(v.2 * s, SCALE as int, bv * 1073741824, SCALE as int, bq);
}

/// Renders a scene to its camera's resolution: one ray per pixel, traced with
/// the given reflection depth budget, into a row-major buffer (top-left
/// origin, rows of `width` entries).
pub fn render(scene: &Scene, depth: u32) -> (buf: Vec<Color>)
    requires
        scene_wf(*scene),
    ensures
        buf@.len() == scene.camera.height * scene.camera.width,
        forall|yy: int, xx: int|
            0 <= yy < scene.camera.height && 0 <= xx < scene.camera.width ==> {
                let c = #[trigger] buf@[yy * scene.camera.width + xx];
                let p = pixel_color(
                    scene.camera,
                    scene.surfaces@,
                    scene.lights@,
                    scene.ambient_coefficient as int,
                    xx,
                    yy,
                    depth as nat,
                );
                c.r == p.0 && c.g == p.1 && c.b == p.2
            },
{
    let w = scene.camera.width;
    let h = scene.camera.height;
    let mut buf: Vec<Color> = Vec::new();
    let mut y: usize = 0;
    while y < h
        invariant
            scene_wf(*scene),
            w == scene.camera.width,
            h == scene.camera.height,
            1 <= w <= 16384,
            0 <= y <= h,
            buf@.len() == y * w,
            forall|yy: int, xx: int|
                0 <= yy < y && 0 <= xx < w ==> {
                    let c = #[trigger] buf@[yy * w + xx];
                    let p = pixel_color(
                        scene.camera,
                        scene.surfaces@,
                        scene.lights@,
                        scene.ambient_coefficient as int,
                        xx,
                        yy,
                        depth as nat,
                    );
                    c.r == p.0 && c.g == p.1 && c.b == p.2
                },
        decreases h - y,
    {
        let mut x: usize = 0;
        while x < w
            invariant
                scene_wf(*scene),
                w == scene.camera.width,
                h == scene.camera.height,
                1 <= w <= 16384,
                0 <= y < h,
                0 <= x <= w,
                buf@.len() == y * w + x,
                forall|yy: int, xx: int|
                    (0 <= yy < y && 0 <= xx < w) || (yy == y && 0 <= xx < x) ==> {
                        let c = #[trigger] buf@[yy * w + xx];
                        let p = pixel_color(
                            scene.camera,
                            scene.surfaces@,
                            scene.lights@,
                            scene.ambient_coefficient as int,
                            xx,
                            yy,
                            depth as nat,
                        );
                        c.r == p.0 && c.g == p.1 && c.b == p.2
                    },
            decreases w - x,
        {
            let c = match Ray::from_pixel(&scene.camera, x, y) {
                Ok(ray) => ray.trace_once(scene, depth),
                Err(_) => Color::new(0, 0, 0),
            };
            buf.push(c);
            x = x + 1;
            proof {
                assert forall|yy: int, xx: int|
                    (0 <= yy < y && 0 <= xx < w) || (yy == y && 0 <= xx < x) implies {
                    let cc = #[trigger] buf@[yy * w + xx];
                    let p = pixel_color(
                        scene.camera,
                        scene.surfaces@,
                        scene.lights@,
                        scene.ambient_coefficient as int,
                        xx,
                        yy,
                        depth as nat,
                    );
                    cc.r == p.0 && cc.g == p.1 && cc.b == p.2
                } by {
                    if 0 <= yy < y {
                        vstd::arithmetic::mul::lemma_mul_inequality(yy + 1, y as int, w as int);
                        assert((yy + 1) * w == yy * w + w) by (nonlinear_arith);
                    }
                }
            }
        }
        y = y + 1;
        proof {
            assert((y - 1) * w + w == y * w) by (nonlinear_arith);
        }
    }
    buf
}

} // verus!
