//! Point lights and their per-point diffuse and specular contributions.

use vstd::prelude::*;
use crate::fx::{SCALE, tdiv, fmul, fpow, fx_mul, fx_pow, lemma_prod_bound, lemma_tdiv_le};
use crate::vec3::{
    Vec3, within, vsub, vneg, vscale, vnormalize, dots, dotr, lemma_prod_within,
};
use crate::{WORLD_LIMIT, INTENSITY_LIMIT};

verus! {

#[derive(Clone, Copy, Debug, PartialEq, Eq, Structural)]
pub struct Light {
    pub position: Vec3,
    pub intensity: i64,
}

/// The ranges every light keeps: a world-bounded position and a nonnegative,
/// bounded intensity.
pub open spec fn light_wf(l: Light) -> bool {
    &&& within(l.position@, WORLD_LIMIT as int)
    &&& 0 <= l.intensity <= INTENSITY_LIMIT
}

/// The larger of a value and zero.
pub open spec fn max0(x: int) -> int {
    if x < 0 {
        0
    } else {
        x
    }
}

/// A value clamped into `[0, SCALE]`.
pub open spec fn clamp_one(x: int) -> int {
    if x < 0 {
        0
    } else if x > SCALE {
        SCALE as int
    } else {
        x
    }
}

/// The unit direction from the light toward a point, or nothing when the
/// point is too close to the light for this scale to resolve a direction.
pub open spec fn light_dir_spec(l: Light, point: (int, int, int)) -> Option<(int, int, int)> {
    let d = vsub(point, l.position@);
    if dots(d, d) >= 1 {
        Some(vnormalize(d))
    } else {
        None
    }
}

/// The diffuse term: the (clamped) alignment of the normal with the light
/// direction, weighted by the intensity.
pub open spec fn diffuse_spec(l: Light, light_direction: (int, int, int), normal: (int, int, int)) -> int {
    max0(fmul(dots(normal, light_direction), l.intensity as int))
}

/// The specular term: the alignment of the eye direction with the light
/// direction mirrored about the normal, clamped into `[0, 1]`, raised to the
/// specular exponent and weighted by the intensity.
pub open spec fn specular_spec(
    l: Light,
    light_direction: (int, int, int),
    normal: (int, int, int),
    ray_direction: (int, int, int),
    specularity: nat,
) -> int {
    let h = dots(normal, light_direction);
    let mirrored = vsub(light_direction, vscale(normal, 2 * h));
    let eye = vneg(ray_direction);
    let base = clamp_one(dots(eye, mirrored));
    max0(fmul(fpow(base, specularity), l.intensity as int))
}

impl Light {
    pub fn new(position: Vec3, intensity: i64) -> (l: Self)
        requires
            within(position@, WORLD_LIMIT as int),
            0 <= intensity <= INTENSITY_LIMIT,
        ensures
            l == (Light { position, intensity }),
            light_wf(l),
    {
        Light { position, intensity }
    }

    /// The unit direction from this light toward `point`, or `None` when the
    /// point (nearly) coincides with the light.
    pub fn direction(&self, point: Vec3) -> (r: Option<Vec3>)
        requires
            light_wf(*self),
            within(point@, 2 * WORLD_LIMIT as int),
        ensures
            r is Some <==> light_dir_spec(*self, point@) is Some,
            r is Some ==> r.unwrap()@ == light_dir_spec(*self, point@).unwrap() && within(
                r.unwrap()@,
                2 * SCALE as int,
            ),
    {
        let d = Vec3::sub(point, self.position);
        let q = d.len_squared();
        if q >= 1 {
            Some(d.normalize())
        } else {
            None
        }
    }

    /// The diffuse contribution of this light given its direction onto the
    /// surface and the surface normal.
    pub fn difused_highlight(&self, light_direction: Vec3, normal: Vec3) -> (r: i64)
        requires
            light_wf(*self),
            within(light_direction@, 2 * SCALE as int),
            within(normal@, 2 * SCALE as int),
        ensures
            r == diffuse_spec(*self, light_direction@, normal@),
            0 <= r <= 0x30000000,
    {
        proof {
            lemma_unit_dot_bound(normal@, light_direction@);
        }
        let highlight = Vec3::dot(normal, light_direction);
        proof {
            lemma_prod_bound(highlight as int, self.intensity as int, 786432, 67108864);
            lemma_tdiv_le(
                highlight * self.intensity,
                SCALE as int,
                52776558133248,
                SCALE as int,
                805306368,
            );
        }
        let unlocked = fx_mul(highlight, self.intensity);
        if unlocked < 0 {
            0
        } else {
            unlocked
        }
    }

    /// The specular contribution of this light given its direction onto the
    /// surface, the surface normal, the traced ray's direction and the
    /// material's specular exponent.
    pub fn specular_highlight(
        &self,
        light_direction: Vec3,
        normal: Vec3,
        ray_direction: Vec3,
        specularity: u32,
    ) -> (r: i64)
        requires
            light_wf(*self),
            within(light_direction@, 2 * SCALE as int),
            within(normal@, 2 * SCALE as int),
            within(ray_direction@, 2 * SCALE as int),
        ensures
            r == specular_spec(
                *self,
                light_direction@,
                normal@,
                ray_direction@,
                specularity as nat,
            ),
            0 <= r <= 0x4000000,
    {
        proof {
            lemma_unit_dot_bound(normal@, light_direction@);
        }
        let highlight = Vec3::dot(normal, light_direction);
        proof {
            lemma_prod_within(normal@.0, 2 * highlight, 0x200000);
            lemma_prod_within(normal@.1, 2 * highlight, 0x200000);
            lemma_prod_within(normal@.2, 2 * highlight, 0x200000);
            lemma_mirrored_small(normal@, light_direction@, highlight as int);
        }
        let mirrored = Vec3::sub(light_direction, Vec3::scale(normal, 2 * highlight));
        let eye = Vec3::negate(ray_direction);
        let alignment = Vec3::dot(eye, mirrored);
        let base = if alignment < 0 {
            0
        } else if alignment > SCALE {
            SCALE
        } else {
            alignment
        };
        let powered = fx_pow(base, specularity);
        proof {
            lemma_prod_bound(powered as int, self.intensity as int, 65536, 67108864);
            lemma_tdiv_le(
                powered * self.intensity,
                SCALE as int,
                4398046511104,
                SCALE as int,
                67108864,
            );
        }
        let unlocked = fx_mul(powered, self.intensity);
        if unlocked < 0 {
            0
        } else {
            unlocked
        }
    }
}

/// A dot product of two vectors within twice the unit scale lies within
/// twelve units, so products with a bounded intensity fit.
pub proof fn lemma_unit_dot_bound(a: (int, int, int), b: (int, int, int))
    requires
        within(a, 2 * SCALE as int),
        within(b, 2 * SCALE as int),
    ensures
        -12 * SCALE <= dots(a, b) <= 12 * SCALE,
{
    lemma_prod_within(a.0, b.0, 131072);
    lemma_prod_within(a.1, b.1, 131072);
    lemma_prod_within(a.2, b.2, 131072);
    assert(-51539607552 <= dotr(a, b) <= 51539607552);
    assert(-786432 <= tdiv(dotr(a, b), 65536) <= 786432);
}

/// The mirrored light direction stays within the vector product limit.
pub proof fn lemma_mirrored_small(n: (int, int, int), ld: (int, int, int), h: int)
    requires
        within(n, 2 * SCALE as int),
        within(ld, 2 * SCALE as int),
        -12 * SCALE <= h <= 12 * SCALE,
    ensures
        within(vsub(ld, vscale(n, 2 * h)), crate::vec3::VEC_LIMIT as int),
{
    lemma_prod_within(n.0, 2 * h, 0x200000);
    lemma_prod_within(n.1, 2 * h, 0x200000);
    lemma_prod_within(n.2, 2 * h, 0x200000);
    assert(-0x40000000000 <= n.0 * (2 * h) <= 0x40000000000);
    assert(-0x4000000 <= tdiv(n.0 * (2 * h), SCALE as int) <= 0x4000000);
    assert(-0x4000000 <= tdiv(n.1 * (2 * h), SCALE as int) <= 0x4000000);
    assert(-0x4000000 <= tdiv(n.2 * (2 * h), SCALE as int) <= 0x4000000);
}

} // verus!
