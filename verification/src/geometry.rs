//! Scene geometry: the sphere primitive and its ray queries, behind a tagged
//! `Geometry` type so the tracer is independent of the primitive.

use vstd::prelude::*;
use crate::fx::{SCALE, tdiv, fdiv, isqrt, isqrt128, lemma_prod_bound, lemma_tdiv_le};
use crate::vec3::{
    Vec3, within, unit_band, vsub, vnormalize, norms, dots, dotr, lemma_band_within,
    lemma_dot_self_nonneg,
};
use crate::ray::Ray;
use crate::{RenderError, WORLD_LIMIT};

verus! {

/// The largest intersection distance `get_intersection` can report.
pub const T_LIMIT: i64 = 0x400000000000;

#[derive(Clone, Copy, Debug, PartialEq, Eq, Structural)]
pub struct Sphere {
    pub center: Vec3,
    pub radius: i64,
}

/// A sphere keeps a world-bounded center and a positive, bounded radius.
pub open spec fn sphere_wf(s: Sphere) -> bool {
    &&& within(s.center@, WORLD_LIMIT as int)
    &&& 0 < s.radius <= WORLD_LIMIT
}

/// The quadratic's leading coefficient: the direction dotted with itself,
/// kept at double scale (no rescale, so it is exact).
pub open spec fn isect_a(d: (int, int, int)) -> int {
    dotr(d, d)
}

/// The quadratic's linear coefficient, at double scale.
pub open spec fn isect_b(d: (int, int, int), oc: (int, int, int)) -> int {
    2 * dotr(d, oc)
}

/// The quadratic's constant coefficient, at double scale.
pub open spec fn isect_c(oc: (int, int, int), radius: int) -> int {
    dotr(oc, oc) - radius * radius
}

/// The discriminant of the intersection quadratic, exact in the ray and
/// sphere data: its sign decides whether the ray meets the sphere.
pub open spec fn isect_delta(s: Sphere, d: (int, int, int), o: (int, int, int)) -> int {
    let oc = vsub(o, s.center@);
    isect_b(d, oc) * isect_b(d, oc) - 4 * isect_a(d) * isect_c(oc, s.radius as int)
}

/// The root with the subtracted square root (the nearer of the two).
pub open spec fn root_minus(s: Sphere, d: (int, int, int), o: (int, int, int)) -> int {
    let oc = vsub(o, s.center@);
    tdiv((-isect_b(d, oc) - isqrt(isect_delta(s, d, o))) * SCALE, 2 * isect_a(d))
}

/// The root with the added square root (the farther of the two).
pub open spec fn root_plus(s: Sphere, d: (int, int, int), o: (int, int, int)) -> int {
    let oc = vsub(o, s.center@);
    tdiv((-isect_b(d, oc) + isqrt(isect_delta(s, d, o))) * SCALE, 2 * isect_a(d))
}

/// The intersection policy: no root when the discriminant is negative;
/// otherwise negative roots are discarded, and of two nonnegative roots the
/// smaller is returned.
pub open spec fn isect_spec(s: Sphere, d: (int, int, int), o: (int, int, int)) -> Option<int> {
    if isect_delta(s, d, o) < 0 {
        None
    } else {
        let t0 = root_plus(s, d, o);
        let t1 = root_minus(s, d, o);
        if t0 >= 0 && t1 >= 0 {
            Some(
                if t1 <= t0 {
                    t1
                } else {
                    t0
                },
            )
        } else if t0 >= 0 {
            Some(t0)
        } else if t1 >= 0 {
            Some(t1)
        } else {
            None
        }
    }
}

impl Sphere {
    /// A sphere from a center and radius; a non-positive radius is rejected.
    pub fn new(center: Vec3, radius: i64) -> (r: Result<Self, RenderError>)
        requires
            within(center@, WORLD_LIMIT as int),
            radius <= WORLD_LIMIT,
        ensures
            radius > 0 ==> r == Ok::<Sphere, RenderError>(Sphere { center, radius }),
            radius <= 0 ==> r == Err::<Sphere, RenderError>(RenderError::NonPositiveRadius),
            r is Ok ==> sphere_wf(r.unwrap()),
    {
        if radius > 0 {
            Ok(Sphere { center, radius })
        } else {
            Err(RenderError::NonPositiveRadius)
        }
    }

    /// The outward unit normal at a point on (or near) the sphere: the
    /// normalized offset of the point from the center. The point must not
    /// collapse onto the center at this scale.
    pub fn get_normal_at(&self, point: Vec3) -> (r: Vec3)
        requires
            sphere_wf(*self),
            within(point@, 2 * WORLD_LIMIT as int),
            dots(vsub(point@, self.center@), vsub(point@, self.center@)) >= 1,
        ensures
            r@ == vnormalize(vsub(point@, self.center@)),
            within(r@, 2 * SCALE as int),
    {
        Vec3::sub(point, self.center).normalize()
    }

    /// The nearest nonnegative intersection distance of a ray with this
    /// sphere, if the ray meets it: the quadratic
    /// `a*t^2 + b*t + c == 0` is solved with both roots divided by `2 a`,
    /// negative roots are discarded and the smaller survivor wins.
    pub fn get_intersection(&self, ray: &Ray) -> (r: Option<i64>)
        requires
            sphere_wf(*self),
            crate::ray::ray_wf(*ray),
        ensures
            r is Some <==> isect_spec(*self, ray.ray_direction@, ray.ray_origin@) is Some,
            r is Some ==> r.unwrap() == isect_spec(
                *self,
                ray.ray_direction@,
                ray.ray_origin@,
            ).unwrap() && 0 <= r.unwrap() <= T_LIMIT,
    {
        let d = ray.ray_direction;
        let o = ray.ray_origin;
        let c = self.center;
        proof {
            lemma_band_within(d@);
            let oc = vsub(o@, c@);
            lemma_prod_bound(d@.0, d@.0, 131072, 131072);
            lemma_prod_bound(d@.1, d@.1, 131072, 131072);
            lemma_prod_bound(d@.2, d@.2, 131072, 131072);
            lemma_prod_bound(d@.0, oc.0, 131072, 0x3000000000);
            lemma_prod_bound(d@.1, oc.1, 131072, 0x3000000000);
            lemma_prod_bound(d@.2, oc.2, 131072, 0x3000000000);
            lemma_prod_bound(oc.0, oc.0, 0x3000000000, 0x3000000000);
            lemma_prod_bound(oc.1, oc.1, 0x3000000000, 0x3000000000);
            lemma_prod_bound(oc.2, oc.2, 0x3000000000, 0x3000000000);
            lemma_prod_bound(self.radius as int, self.radius as int, WORLD_LIMIT as int,
                WORLD_LIMIT as int);
            lemma_isect_bounds(d@, oc, self.radius as int);
        }
        let dx = d.x as i128;
        let dy = d.y as i128;
        let dz = d.z as i128;
        let ocx = (o.x as i128) - (c.x as i128);
        let ocy = (o.y as i128) - (c.y as i128);
        let ocz = (o.z as i128) - (c.z as i128);
        let a2: i128 = dx * dx + dy * dy + dz * dz;
        let b2: i128 = 2 * (dx * ocx + dy * ocy + dz * ocz);
        let rr: i128 = (self.radius as i128) * (self.radius as i128);
        let c2: i128 = ocx * ocx + ocy * ocy + ocz * ocz - rr;
        let delta: i128 = b2 * b2 - 4 * a2 * c2;
        if delta < 0 {
            None
        } else {
            let squ: u128 = isqrt128(delta as u128);
            proof {
                assert((squ as int) * (squ as int) <= delta);
                assert(squ < 0x800000000000000) by (nonlinear_arith)
                    requires
                        (squ as int) * (squ as int) <= delta,
                        delta < 0x200000000000000000000000000000,
                        squ >= 0,
                ;
            }
            let sq: i128 = squ as i128;
            proof {
                lemma_tdiv_le(
                    (-(b2 as int) - sq) * (SCALE as int),
                    2 * (a2 as int),
                    0x10000000000000000000,
                    0x80000000,
                    T_LIMIT as int,
                );
                lemma_tdiv_le(
                    (-(b2 as int) + sq) * (SCALE as int),
                    2 * (a2 as int),
                    0x10000000000000000000,
                    0x80000000,
                    T_LIMIT as int,
                );
            }
            let t0 = ((-b2 + sq) * 65536).checked_div(2 * a2).unwrap() as i64;
            let t1 = ((-b2 - sq) * 65536).checked_div(2 * a2).unwrap() as i64;
            if t0 >= 0 && t1 >= 0 {
                Some(
                    if t1 <= t0 {
                        t1
                    } else {
                        t0
                    },
                )
            } else if t0 >= 0 {
                Some(t0)
            } else if t1 >= 0 {
                Some(t1)
            } else {
                None
            }
        }
    }
}

/// Bounds on every intermediate of the intersection quadratic, given a
/// direction in the unit band and world-bounded origin, center and radius.
proof fn lemma_isect_bounds(d: (int, int, int), oc: (int, int, int), radius: int)
    requires
        unit_band(d),
        within(d, 131072),
        within(oc, 0x3000000000),
        0 < radius <= WORLD_LIMIT,
    ensures
        0 <= dotr(d, d) < 17179934720,
        -0x240000000000000 <= 2 * dotr(d, oc) <= 0x240000000000000,
        -0x80000000000000000000 <= dotr(oc, oc) - radius * radius <= 0x80000000000000000000,
        0 <= (2 * dotr(d, oc)) * (2 * dotr(d, oc)) <= 0x240000000000000 * 0x240000000000000,
        -(68719738880 * 0x80000000000000000000) <= 4 * dotr(d, d) * (dotr(oc, oc) - radius
            * radius) <= 68719738880 * 0x80000000000000000000,
        -0x200000000000000000000000000000 <= (2 * dotr(d, oc)) * (2 * dotr(d, oc)) - 4 * dotr(d, d)
            * (dotr(oc, oc) - radius * radius) <= 0x200000000000000000000000000000,
{
    lemma_dot_self_nonneg(d);
    lemma_prod_bound(d.0, oc.0, 131072, 0x3000000000);
    lemma_prod_bound(d.1, oc.1, 131072, 0x3000000000);
    lemma_prod_bound(d.2, oc.2, 131072, 0x3000000000);
    assert(-0x120000000000000 <= dotr(d, oc) <= 0x120000000000000);
    lemma_prod_bound(oc.0, oc.0, 0x3000000000, 0x3000000000);
    lemma_prod_bound(oc.1, oc.1, 0x3000000000, 0x3000000000);
    lemma_prod_bound(oc.2, oc.2, 0x3000000000, 0x3000000000);
    lemma_prod_bound(radius, radius, WORLD_LIMIT as int, WORLD_LIMIT as int);
    let b = 2 * dotr(d, oc);
    let a = dotr(d, d);
    let cc = dotr(oc, oc) - radius * radius;
    assert(b * b >= 0) by (nonlinear_arith);
    lemma_prod_bound(b, b, 0x240000000000000, 0x240000000000000);
    lemma_prod_bound(4 * a, cc, 68719738880, 0x80000000000000000000);
}

/// A ray whose closest approach to the sphere's center exceeds the radius
/// returns no intersection: when `(d . oc)^2 < (d . d) ((oc . oc) - r^2)` —
/// exactly the statement that the squared perpendicular distance from the
/// center to the ray's line exceeds the squared radius — the discriminant is
/// negative and the intersection is `None`.
pub proof fn lemma_miss_beyond_radius(s: Sphere, d: (int, int, int), o: (int, int, int))
    requires
        isect_a(d) > 0,
        dotr(d, vsub(o, s.center@)) * dotr(d, vsub(o, s.center@)) < isect_a(d) * isect_c(
            vsub(o, s.center@),
            s.radius as int,
        ),
    ensures
        isect_delta(s, d, o) < 0,
        isect_spec(s, d, o) is None,
{
    let oc = vsub(o, s.center@);
    let m = dotr(d, oc);
    let a = isect_a(d);
    let cc = isect_c(oc, s.radius as int);
    assert((2 * m) * (2 * m) - 4 * a * cc == 4 * (m * m - a * cc)) by (nonlinear_arith);
    assert(m * m - a * cc < 0);
}

/// A tangent ray — its closest approach equals the radius, so the
/// discriminant is zero — has exactly one root: the two roots coincide.
pub proof fn lemma_tangent_single_root(s: Sphere, d: (int, int, int), o: (int, int, int))
    requires
        isect_a(d) > 0,
        dotr(d, vsub(o, s.center@)) * dotr(d, vsub(o, s.center@)) == isect_a(d) * isect_c(
            vsub(o, s.center@),
            s.radius as int,
        ),
    ensures
        isect_delta(s, d, o) == 0,
        root_minus(s, d, o) == root_plus(s, d, o),
        isect_spec(s, d, o) is Some ==> isect_spec(s, d, o).unwrap() == root_minus(s, d, o),
{
    let oc = vsub(o, s.center@);
    let m = dotr(d, oc);
    let a = isect_a(d);
    let cc = isect_c(oc, s.radius as int);
    assert((2 * m) * (2 * m) - 4 * a * cc == 4 * (m * m - a * cc)) by (nonlinear_arith);
    assert(isect_delta(s, d, o) == 0);
    crate::fx::lemma_isqrt(0, 0);
}

/// A ray aimed straight at a sphere's center from outside hits at the
/// distance from origin to center minus the radius: with an exactly unit
/// direction and `origin - center == -k * direction` for a whole number of
/// units `k`, the returned distance is `k * SCALE - radius`, which is
/// `norms(origin - center) - radius`.
pub proof fn lemma_through_center(s: Sphere, d: (int, int, int), o: (int, int, int), k: int)
    requires
        dotr(d, d) == (SCALE as int) * (SCALE as int),
        vsub(o, s.center@) == (-k * d.0, -k * d.1, -k * d.2),
        k > 0,
        0 < s.radius <= k * SCALE,
    ensures
        isect_spec(s, d, o) == Some(k * SCALE - s.radius),
        norms(vsub(o, s.center@)) == k * SCALE,
        isect_spec(s, d, o) == Some(norms(vsub(o, s.center@)) - s.radius),
{
    let sc = SCALE as int;
    let s2 = sc * sc;
    assert(s2 == 4294967296) by (nonlinear_arith)
        requires
            sc == 65536,
            s2 == sc * sc,
    ;
    let oc = vsub(o, s.center@);
    let r = s.radius as int;
    assert(dotr(d, oc) == -k * s2) by (nonlinear_arith)
        requires
            oc.0 == -k * d.0 && oc.1 == -k * d.1 && oc.2 == -k * d.2,
            d.0 * d.0 + d.1 * d.1 + d.2 * d.2 == s2,
            dotr(d, oc) == d.0 * oc.0 + d.1 * oc.1 + d.2 * oc.2,
    ;
    assert(oc.0 * oc.0 == (k * k) * (d.0 * d.0)) by (nonlinear_arith)
        requires
            oc.0 == -k * d.0,
    ;
    assert(oc.1 * oc.1 == (k * k) * (d.1 * d.1)) by (nonlinear_arith)
        requires
            oc.1 == -k * d.1,
    ;
    assert(oc.2 * oc.2 == (k * k) * (d.2 * d.2)) by (nonlinear_arith)
        requires
            oc.2 == -k * d.2,
    ;
    assert((k * k) * (d.0 * d.0) + (k * k) * (d.1 * d.1) + (k * k) * (d.2 * d.2) == (k * k) * (d.0
        * d.0 + d.1 * d.1 + d.2 * d.2)) by (nonlinear_arith);
    assert(dotr(oc, oc) == (k * k) * s2);
    let b = isect_b(d, oc);
    let a = isect_a(d);
    let cc = isect_c(oc, r);
    assert(b == 2 * (-k * s2));
    let delta = isect_delta(s, d, o);
    assert(b * b == 4 * ((k * k) * (s2 * s2))) by (nonlinear_arith)
        requires
            b == 2 * (-k * s2),
    ;
    assert(4 * a * cc == 4 * ((k * k) * (s2 * s2)) - 4 * (s2 * (r * r))) by (nonlinear_arith)
        requires
            a == s2,
            cc == (k * k) * s2 - r * r,
    ;
    assert(delta == 4 * (s2 * (r * r)));
    assert(4 * (s2 * (r * r)) == (2 * sc * r) * (2 * sc * r)) by (nonlinear_arith)
        requires
            s2 == sc * sc,
    ;
    assert(0 <= 2 * sc * r && (2 * sc * r) * (2 * sc * r) < (2 * sc * r + 1) * (2 * sc * r + 1))
        by (nonlinear_arith)
        requires
            sc == 65536,
            r > 0,
    ;
    crate::fx::lemma_isqrt(delta, 2 * sc * r);
    // Both root numerators are exact multiples of the denominator.
    assert((-b - 2 * sc * r) * sc == (k * sc - r) * (2 * a)) by (nonlinear_arith)
        requires
            b == 2 * (-k * s2),
            a == s2,
            s2 == sc * sc,
    ;
    assert((-b + 2 * sc * r) * sc == (k * sc + r) * (2 * a)) by (nonlinear_arith)
        requires
            b == 2 * (-k * s2),
            a == s2,
            s2 == sc * sc,
    ;
    lemma_tdiv_exact(k * sc - r, 2 * a);
    lemma_tdiv_exact(k * sc + r, 2 * a);
    assert(isqrt(delta) == 2 * sc * r);
    assert(root_minus(s, d, o) == tdiv((-b - isqrt(delta)) * SCALE, 2 * a));
    assert((-b - isqrt(delta)) * SCALE == (k * sc - r) * (2 * a));
    assert(root_minus(s, d, o) == k * sc - r);
    assert(root_plus(s, d, o) == k * sc + r);
    // The fixed-point distance from origin to center is exactly k units.
    assert(dots(oc, oc) == k * k * sc) by {
        assert(k * k * s2 == (k * k * sc) * sc) by (nonlinear_arith)
            requires
                s2 == sc * sc,
        ;
        lemma_tdiv_exact(k * k * sc, sc);
    }
    assert((k * k * sc) * sc == (k * sc) * (k * sc)) by (nonlinear_arith);
    assert(0 <= k * sc && (k * sc) * (k * sc) < (k * sc + 1) * (k * sc + 1)) by (nonlinear_arith)
        requires
            k > 0,
            sc == 65536,
    ;
    crate::fx::lemma_isqrt((k * k * sc) * sc, k * sc);
}

/// Truncated division of an exact multiple returns the factor.
proof fn lemma_tdiv_exact(q: int, m: int)
    requires
        q >= 0,
        m > 0,
    ensures
        tdiv(q * m, m) == q,
{
    assert(q * m >= 0) by (nonlinear_arith)
        requires
            q >= 0,
            m > 0,
    ;
    vstd::arithmetic::div_mod::lemma_div_by_multiple(q, m);
}

/// The outward surface normal at a point on a sphere points away from the
/// center: its dot product with the offset from the center is positive.
pub proof fn lemma_normal_outward(s: Sphere, point: (int, int, int))
    requires
        within(vsub(point, s.center@), 0x4000000000),
        dots(vsub(point, s.center@), vsub(point, s.center@)) >= 1,
    ensures
        dots(geom_normal(Geometry::Sphere(s), point), vsub(point, s.center@)) >= 1,
{
    let v = vsub(point, s.center@);
    let sc = SCALE as int;
    let q = dots(v, v);
    let l = crate::vec3::norms(v);
    lemma_dot_self_nonneg(v);
    crate::fx::lemma_isqrt_property(q * sc);
    assert(l * l <= q * sc < (l + 1) * (l + 1));
    assert(l >= 256) by (nonlinear_arith)
        requires
            q >= 1,
            sc == 65536,
            l >= 0,
            q * sc < (l + 1) * (l + 1),
    ;
    let raw = dotr(v, v);
    assert(q == raw / sc);
    assert(q * sc <= raw < q * sc + sc);
    assert(v.0 * v.0 <= raw && v.1 * v.1 <= raw && v.2 * v.2 <= raw) by (nonlinear_arith)
        requires
            raw == v.0 * v.0 + v.1 * v.1 + v.2 * v.2,
    ;
    lemma_abs_component(v.0, raw, l, q);
    lemma_abs_component(v.1, raw, l, q);
    lemma_abs_component(v.2, raw, l, q);
    lemma_normal_term(v.0, l);
    lemma_normal_term(v.1, l);
    lemma_normal_term(v.2, l);
    let n = crate::vec3::vnormalize(v);
    assert(l * (n.0 * v.0) + l * (n.1 * v.1) + l * (n.2 * v.2) >= 65536 * raw - 3 * (l * (l
        + 256)));
    assert(l * dotr(n, v) == l * (n.0 * v.0) + l * (n.1 * v.1) + l * (n.2 * v.2))
        by (nonlinear_arith)
        requires
            dotr(n, v) == n.0 * v.0 + n.1 * v.1 + n.2 * v.2,
    ;
    assert(dotr(n, v) >= 65536) by (nonlinear_arith)
        requires
            l * dotr(n, v) >= 65536 * raw - 3 * (l * (l + 256)),
            raw >= l * l,
            l >= 256,
    ;
    assert(dots(n, v) >= 1);
}

/// A component of a vector is within the vector's length plus 256 steps.
proof fn lemma_abs_component(x: int, raw: int, l: int, q: int)
    requires
        x * x <= raw,
        raw < q * 65536 + 65536,
        q * 65536 < (l + 1) * (l + 1),
        l >= 256,
    ensures
        -(l + 256) <= x <= l + 256,
{
    assert(x * x < (l + 256) * (l + 256)) by (nonlinear_arith)
        requires
            x * x <= raw,
            raw < q * 65536 + 65536,
            q * 65536 < (l + 1) * (l + 1),
            l >= 256,
    ;
    assert(-(l + 256) <= x <= l + 256) by (nonlinear_arith)
        requires
            x * x < (l + 256) * (l + 256),
            l >= 0,
    ;
}

/// One term of the normal's dot product with the offset: dividing a component
/// by the length and multiplying back by the component loses at most the
/// component's magnitude, scaled by the length.
proof fn lemma_normal_term(x: int, l: int)
    requires
        l >= 256,
        -(l + 256) <= x <= l + 256,
    ensures
        l * (fdiv(x, l) * x) >= 65536 * (x * x) - l * (l + 256),
        fdiv(x, l) * x >= 0,
{
    if x >= 0 {
        let num = x * 65536;
        assert(num >= 0);
        vstd::arithmetic::div_mod::lemma_fundamental_div_mod(num, l);
        vstd::arithmetic::div_mod::lemma_remainder_upper(num, l);
        vstd::arithmetic::div_mod::lemma_div_pos_is_pos(num, l);
        assert(l * (num / l) > num - l);
        assert(l * ((num / l) * x) >= 65536 * (x * x) - l * x) by (nonlinear_arith)
            requires
                l * (num / l) > num - l,
                num == x * 65536,
                num / l >= 0,
                x >= 0,
                l > 0,
        ;
        assert((num / l) * x >= 0) by (nonlinear_arith)
            requires
                num / l >= 0,
                x >= 0,
        ;
        assert(l * x <= l * (l + 256)) by (nonlinear_arith)
            requires
                x <= l + 256,
                l > 0,
        ;
    } else {
        let num = (-x) * 65536;
        assert(num >= 0);
        vstd::arithmetic::div_mod::lemma_fundamental_div_mod(num, l);
        vstd::arithmetic::div_mod::lemma_remainder_upper(num, l);
        vstd::arithmetic::div_mod::lemma_div_pos_is_pos(num, l);
        assert(l * (num / l) > num - l);
        assert(fdiv(x, l) == -(num / l)) by {
            assert(x * 65536 == -num);
        }
        assert(l * ((-(num / l)) * x) >= 65536 * (x * x) - l * (-x)) by (nonlinear_arith)
            requires
                l * (num / l) > num - l,
                num == (-x) * 65536,
                num / l >= 0,
                x < 0,
                l > 0,
        ;
        assert((-(num / l)) * x >= 0) by (nonlinear_arith)
            requires
                num / l >= 0,
                x < 0,
        ;
        assert(l * (-x) <= l * (l + 256)) by (nonlinear_arith)
            requires
                -x <= l + 256,
                l > 0,
        ;
    }
}

/// The geometry variants a surface may carry.
#[derive(Clone, Copy, Debug, PartialEq, Eq, Structural)]
pub enum Geometry {
    Sphere(Sphere),
}

/// Well-formedness of whichever variant is carried.
pub open spec fn geometry_wf(g: Geometry) -> bool {
    match g {
        Geometry::Sphere(s) => sphere_wf(s),
    }
}

/// The intersection result of a geometry with a ray.
pub open spec fn geom_isect(g: Geometry, d: (int, int, int), o: (int, int, int)) -> Option<int> {
    match g {
        Geometry::Sphere(s) => isect_spec(s, d, o),
    }
}

/// Whether the outward normal at a point is defined at this scale.
pub open spec fn geom_normal_defined(g: Geometry, point: (int, int, int)) -> bool {
    match g {
        Geometry::Sphere(s) => dots(vsub(point, s.center@), vsub(point, s.center@)) >= 1,
    }
}

/// The outward unit normal of a geometry at a point.
pub open spec fn geom_normal(g: Geometry, point: (int, int, int)) -> (int, int, int) {
    match g {
        Geometry::Sphere(s) => vnormalize(vsub(point, s.center@)),
    }
}

impl Geometry {
    /// Whether the outward normal at `point` is resolvable at this scale.
    pub fn normal_defined(&self, point: Vec3) -> (r: bool)
        requires
            geometry_wf(*self),
            within(point@, 2 * WORLD_LIMIT as int),
        ensures
            r == geom_normal_defined(*self, point@),
    {
        match self {
            Geometry::Sphere(s) => {
                proof {
                    lemma_dot_self_nonneg(vsub(point@, s.center@));
                }
                let off = Vec3::sub(point, s.center);
                let q = off.len_squared();
                q >= 1
            },
        }
    }

    /// The outward unit normal at a point on the geometry.
    pub fn get_normal_at(&self, point: Vec3) -> (r: Vec3)
        requires
            geometry_wf(*self),
            within(point@, 2 * WORLD_LIMIT as int),
            geom_normal_defined(*self, point@),
        ensures
            r@ == geom_normal(*self, point@),
            within(r@, 2 * SCALE as int),
    {
        match self {
            Geometry::Sphere(s) => s.get_normal_at(point),
        }
    }

    /// The nearest nonnegative intersection distance with a ray, if any.
    pub fn get_intersection(&self, ray: &Ray) -> (r: Option<i64>)
        requires
            geometry_wf(*self),
            crate::ray::ray_wf(*ray),
        ensures
            r is Some <==> geom_isect(*self, ray.ray_direction@, ray.ray_origin@) is Some,
            r is Some ==> r.unwrap() == geom_isect(
                *self,
                ray.ray_direction@,
                ray.ray_origin@,
            ).unwrap() && 0 <= r.unwrap() <= T_LIMIT,
    {
        match self {
            Geometry::Sphere(s) => s.get_intersection(ray),
        }
    }
}

} // verus!
