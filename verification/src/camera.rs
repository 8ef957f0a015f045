//! The pinhole camera: a position, a viewing direction and the derived
//! view-plane basis.

use vstd::prelude::*;
use crate::fx::{SCALE, tdiv, lemma_prod_bound, lemma_tdiv_le};
use crate::vec3::{
    Vec3, within, unit_band, vadd, vneg, vscale, vcross, vnormalize, dots, dotr, in_unit_band,
    lemma_band_within, VEC_LIMIT,
};
use crate::{RenderError, WORLD_LIMIT};

verus! {

/// The configuration constants a camera is built with: the distance from the
/// position to the view plane, and the world's up direction.
#[derive(Clone, Copy, Debug, PartialEq, Eq, Structural)]
pub struct CameraConfig {
    pub focal_distance: i64,
    pub up: Vec3,
}

/// The focal distance is at least one unit and bounded; the up vector sits in
/// the unit band.
pub open spec fn config_wf(c: CameraConfig) -> bool {
    &&& SCALE <= c.focal_distance <= 0x40000000
    &&& unit_band(c.up@)
}

impl CameraConfig {
    /// The conventional setup: a focal distance of 430 units and an up vector
    /// pointing along negative y.
    pub fn standard() -> (c: Self)
        ensures
            c.focal_distance == 430 * SCALE,
            c.up@ == (0int, -(SCALE as int), 0int),
            config_wf(c),
    {
        let c = CameraConfig { focal_distance: 430 * SCALE, up: Vec3::new(0, -SCALE, 0) };
        proof {
            assert(dotr(c.up@, c.up@) == 4294967296);
        }
        c
    }
}

#[derive(Clone, Copy, Debug, PartialEq, Eq, Structural)]
pub struct Camera {
    pub position: Vec3,
    pub direction: Vec3,
    pub plane_center: Vec3,
    pub plane_direction_x: Vec3,
    pub plane_direction_y: Vec3,
    pub width: usize,
    pub height: usize,
}

/// The bounds every constructed camera keeps, enough for every per-pixel ray
/// computation to stay in range.
pub open spec fn camera_wf(c: Camera) -> bool {
    &&& within(c.position@, WORLD_LIMIT as int)
    &&& unit_band(c.direction@)
    &&& within(c.plane_center@, 2 * WORLD_LIMIT as int)
    &&& within(c.plane_direction_x@, 2 * SCALE as int)
    &&& unit_band(c.plane_direction_x@)
    &&& within(c.plane_direction_y@, 16 * SCALE as int)
    &&& 1 <= c.width <= 16384
    &&& 1 <= c.height <= 16384
}

/// The first view-plane basis vector: the normalized cross product of the
/// viewing direction with the up vector.
pub open spec fn plane_dir_x_spec(direction: (int, int, int), up: (int, int, int)) -> (
    int,
    int,
    int,
) {
    vnormalize(vcross(direction, up))
}

/// The camera construction degenerates exactly when the direction-up cross
/// product is too short to normalize, or its normalization leaves the unit
/// band.
pub open spec fn camera_degenerate(direction: (int, int, int), up: (int, int, int)) -> bool {
    ||| dots(vcross(direction, up), vcross(direction, up)) < 1
    ||| !unit_band(plane_dir_x_spec(direction, up))
}

impl Camera {
    /// A camera with its derived view-plane basis: the plane center sits one
    /// focal distance along the direction, the x basis vector is the
    /// normalized cross product of direction and up, and the y basis vector
    /// is the cross product of the negated direction with the x basis vector.
    /// A direction of zero length or parallel to up is rejected.
    pub fn new(
        config: CameraConfig,
        position: Vec3,
        direction: Vec3,
        width: usize,
        height: usize,
    ) -> (r: Result<Self, RenderError>)
        requires
            config_wf(config),
            within(position@, WORLD_LIMIT as int),
            unit_band(direction@),
            1 <= width <= 16384,
            1 <= height <= 16384,
        ensures
            r is Err <==> camera_degenerate(direction@, config.up@),
            r is Err ==> r == Err::<Camera, RenderError>(RenderError::DegenerateCamera),
            r is Ok ==> {
                let c = r.unwrap();
                &&& c.position == position
                &&& c.direction == direction
                &&& c.width == width
                &&& c.height == height
                &&& c.plane_center@ == vadd(
                    position@,
                    vscale(direction@, config.focal_distance as int),
                )
                &&& c.plane_direction_x@ == plane_dir_x_spec(direction@, config.up@)
                &&& c.plane_direction_y@ == vcross(vneg(direction@), c.plane_direction_x@)
                &&& camera_wf(c)
            },
    {
        proof {
            lemma_band_within(direction@);
            lemma_band_within(config.up@);
            lemma_camera_bounds(direction@, config.up@, config.focal_distance as int);
        }
        let cx = Vec3::cross(direction, config.up);
        let q = cx.len_squared();
        if q < 1 {
            return Err(RenderError::DegenerateCamera);
        }
        let plane_direction_x = cx.normalize();
        if !in_unit_band(plane_direction_x) {
            return Err(RenderError::DegenerateCamera);
        }
        proof {
            lemma_band_within(plane_direction_x@);
            lemma_pdy_bounds(direction@, plane_direction_x@);
        }
        let plane_direction_y = Vec3::cross(Vec3::negate(direction), plane_direction_x);
        let plane_center = Vec3::add(position, Vec3::scale(direction, config.focal_distance));
        Ok(
            Camera {
                position,
                direction,
                plane_center,
                plane_direction_x,
                plane_direction_y,
                width,
                height,
            },
        )
    }
}

/// The direction-up cross product stays small, and scaling the direction by
/// the focal distance stays within a world bound.
proof fn lemma_camera_bounds(d: (int, int, int), up: (int, int, int), focal: int)
    requires
        within(d, 2 * SCALE as int),
        within(up, 2 * SCALE as int),
        SCALE <= focal <= 0x40000000,
    ensures
        within(vcross(d, up), VEC_LIMIT as int),
        i64::MIN * (SCALE as int) <= d.0 * focal <= i64::MAX * (SCALE as int),
        i64::MIN * (SCALE as int) <= d.1 * focal <= i64::MAX * (SCALE as int),
        i64::MIN * (SCALE as int) <= d.2 * focal <= i64::MAX * (SCALE as int),
        within(vscale(d, focal), 0x100000000),
{
    lemma_cross_small(d, up, 131072, 131072, 0x4000000000);
    lemma_prod_bound(d.0, focal, 131072, 0x40000000);
    lemma_prod_bound(d.1, focal, 131072, 0x40000000);
    lemma_prod_bound(d.2, focal, 131072, 0x40000000);
    lemma_tdiv_le(d.0 * focal, SCALE as int, 0x800000000000, SCALE as int, 0x80000000);
    lemma_tdiv_le(d.1 * focal, SCALE as int, 0x800000000000, SCALE as int, 0x80000000);
    lemma_tdiv_le(d.2 * focal, SCALE as int, 0x800000000000, SCALE as int, 0x80000000);
}

/// The second basis vector, a cross product of two unit-band vectors, stays
/// within sixteen units.
proof fn lemma_pdy_bounds(d: (int, int, int), x: (int, int, int))
    requires
        within(d, 2 * SCALE as int),
        within(x, 2 * SCALE as int),
    ensures
        within(vneg(d), 2 * SCALE as int),
        within(vcross(vneg(d), x), 16 * SCALE as int),
{
    lemma_cross_small(vneg(d), x, 131072, 131072, 1048576);
}

/// Componentwise bound on a cross product of bounded vectors.
proof fn lemma_cross_small(a: (int, int, int), b: (int, int, int), ba: int, bb: int, bq: int)
    requires
        within(a, ba),
        within(b, bb),
        0 <= ba,
        0 <= bb,
        0 <= bq,
        2 * (ba * bb) <= bq * (SCALE as int),
    ensures
        within(vcross(a, b), bq),
{
    lemma_prod_bound(a.0, b.1, ba, bb);
    lemma_prod_bound(a.0, b.2, ba, bb);
    lemma_prod_bound(a.1, b.0, ba, bb);
    lemma_prod_bound(a.1, b.2, ba, bb);
    lemma_prod_bound(a.2, b.0, ba, bb);
    lemma_prod_bound(a.2, b.1, ba, bb);
    let m = 2 * (ba * bb);
    lemma_tdiv_le(a.1 * b.2 - a.2 * b.1, SCALE as int, m, SCALE as int, bq);
    lemma_tdiv_le(a.2 * b.0 - a.0 * b.2, SCALE as int, m, SCALE as int, bq);
    lemma_tdiv_le(a.0 * b.1 - a.1 * b.0, SCALE as int, m, SCALE as int, bq);
}

} // verus!
