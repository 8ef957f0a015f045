//! Three-component fixed-point vectors. Every operation's contract states the
//! resulting components exactly, over the mathematical view `(int, int, int)`.

use vstd::prelude::*;
use crate::fx::{SCALE, tdiv, fmul, fdiv, fsqrt, fx_mul, fx_div, fx_sqrt, lemma_isqrt_property};

verus! {

/// Any vector whose components stay within this magnitude may enter a dot,
/// cross or scale product without overflowing the rescale to `i64`.
pub const VEC_LIMIT: i64 = 0x4000000000;

#[derive(Clone, Copy, Debug, PartialEq, Eq, Structural)]
pub struct Vec3 {
    pub x: i64,
    pub y: i64,
    pub z: i64,
}

impl View for Vec3 {
    type V = (int, int, int);

    open spec fn view(&self) -> (int, int, int) {
        (self.x as int, self.y as int, self.z as int)
    }
}

/// All three components lie within `b` in magnitude.
pub open spec fn within(v: (int, int, int), b: int) -> bool {
    -b <= v.0 <= b && -b <= v.1 <= b && -b <= v.2 <= b
}

/// Componentwise sum.
pub open spec fn vadd(a: (int, int, int), b: (int, int, int)) -> (int, int, int) {
    (a.0 + b.0, a.1 + b.1, a.2 + b.2)
}

/// Componentwise difference.
pub open spec fn vsub(a: (int, int, int), b: (int, int, int)) -> (int, int, int) {
    (a.0 - b.0, a.1 - b.1, a.2 - b.2)
}

/// Componentwise negation.
pub open spec fn vneg(a: (int, int, int)) -> (int, int, int) {
    (-a.0, -a.1, -a.2)
}

/// A vector scaled by a fixed-point factor.
pub open spec fn vscale(a: (int, int, int), s: int) -> (int, int, int) {
    (fmul(a.0, s), fmul(a.1, s), fmul(a.2, s))
}

/// The raw sum of componentwise products, still at double scale.
pub open spec fn dotr(a: (int, int, int), b: (int, int, int)) -> int {
    a.0 * b.0 + a.1 * b.1 + a.2 * b.2
}

/// The fixed-point dot product.
pub open spec fn dots(a: (int, int, int), b: (int, int, int)) -> int {
    tdiv(dotr(a, b), SCALE as int)
}

/// The fixed-point cross product.
pub open spec fn vcross(a: (int, int, int), b: (int, int, int)) -> (int, int, int) {
    (
        tdiv(a.1 * b.2 - a.2 * b.1, SCALE as int),
        tdiv(a.2 * b.0 - a.0 * b.2, SCALE as int),
        tdiv(a.0 * b.1 - a.1 * b.0, SCALE as int),
    )
}

/// The raw squared length lies within a factor of four of one square unit
/// (up to one rescale step): the band every ray direction keeps.
pub open spec fn unit_band(v: (int, int, int)) -> bool {
    1073741824 <= dotr(v, v) < 17179934720
}

/// The fixed-point length of a vector.
pub open spec fn norms(v: (int, int, int)) -> int {
    fsqrt(dots(v, v))
}

/// The vector divided by its own length.
pub open spec fn vnormalize(v: (int, int, int)) -> (int, int, int) {
    (fdiv(v.0, norms(v)), fdiv(v.1, norms(v)), fdiv(v.2, norms(v)))
}

impl Vec3 {
    pub fn new(x: i64, y: i64, z: i64) -> (r: Self)
        ensures
            r@ == (x as int, y as int, z as int),
    {
        Vec3 { x, y, z }
    }

    pub fn zero() -> (r: Self)
        ensures
            r@ == (0int, 0int, 0int),
    {
        Vec3 { x: 0, y: 0, z: 0 }
    }

    pub fn add(a: Vec3, b: Vec3) -> (r: Self)
        requires
            within(a@, 0x3FFFFFFFFFFFFFFF),
            within(b@, 0x3FFFFFFFFFFFFFFF),
        ensures
            r@ == vadd(a@, b@),
    {
        Vec3 { x: a.x + b.x, y: a.y + b.y, z: a.z + b.z }
    }

    pub fn sub(a: Vec3, b: Vec3) -> (r: Self)
        requires
            within(a@, 0x3FFFFFFFFFFFFFFF),
            within(b@, 0x3FFFFFFFFFFFFFFF),
        ensures
            r@ == vsub(a@, b@),
    {
        Vec3 { x: a.x - b.x, y: a.y - b.y, z: a.z - b.z }
    }

    pub fn negate(v: Vec3) -> (r: Self)
        requires
            within(v@, 0x3FFFFFFFFFFFFFFF),
        ensures
            r@ == vneg(v@),
    {
        Vec3 { x: -v.x, y: -v.y, z: -v.z }
    }

    /// The vector scaled by the fixed-point factor `s`.
    pub fn scale(v: Vec3, s: i64) -> (r: Self)
        requires
            i64::MIN * (SCALE as int) <= v@.0 * s <= i64::MAX * (SCALE as int),
            i64::MIN * (SCALE as int) <= v@.1 * s <= i64::MAX * (SCALE as int),
            i64::MIN * (SCALE as int) <= v@.2 * s <= i64::MAX * (SCALE as int),
        ensures
            r@ == vscale(v@, s as int),
    {
        Vec3 { x: fx_mul(v.x, s), y: fx_mul(v.y, s), z: fx_mul(v.z, s) }
    }

    pub fn dot(a: Vec3, b: Vec3) -> (r: i64)
        requires
            within(a@, VEC_LIMIT as int),
            within(b@, VEC_LIMIT as int),
        ensures
            r == dots(a@, b@),
    {
        proof {
            lemma_prod_within(a@.0, b@.0, VEC_LIMIT as int);
            lemma_prod_within(a@.1, b@.1, VEC_LIMIT as int);
            lemma_prod_within(a@.2, b@.2, VEC_LIMIT as int);
            lemma_dot_fits(a@, b@);
        }
        let p: i128 = (a.x as i128) * (b.x as i128) + (a.y as i128) * (b.y as i128) + (a.z
            as i128) * (b.z as i128);
        let q: i128 = p.checked_div(65536).unwrap();
        q as i64
    }

    pub fn cross(a: Vec3, b: Vec3) -> (r: Self)
        requires
            within(a@, VEC_LIMIT as int),
            within(b@, VEC_LIMIT as int),
        ensures
            r@ == vcross(a@, b@),
    {
        proof {
            lemma_prod_within(a@.0, b@.1, VEC_LIMIT as int);
            lemma_prod_within(a@.0, b@.2, VEC_LIMIT as int);
            lemma_prod_within(a@.1, b@.0, VEC_LIMIT as int);
            lemma_prod_within(a@.1, b@.2, VEC_LIMIT as int);
            lemma_prod_within(a@.2, b@.0, VEC_LIMIT as int);
            lemma_prod_within(a@.2, b@.1, VEC_LIMIT as int);
            lemma_cross_fits(a@, b@);
        }
        let px: i128 = (a.y as i128) * (b.z as i128) - (a.z as i128) * (b.y as i128);
        let py: i128 = (a.z as i128) * (b.x as i128) - (a.x as i128) * (b.z as i128);
        let pz: i128 = (a.x as i128) * (b.y as i128) - (a.y as i128) * (b.x as i128);
        let qx: i128 = px.checked_div(65536).unwrap();
        let qy: i128 = py.checked_div(65536).unwrap();
        let qz: i128 = pz.checked_div(65536).unwrap();
        Vec3 { x: qx as i64, y: qy as i64, z: qz as i64 }
    }

    pub fn len_squared(&self) -> (r: i64)
        requires
            within(self@, VEC_LIMIT as int),
        ensures
            r == dots(self@, self@),
            r >= 0,
    {
        proof {
            lemma_dot_self_nonneg(self@);
        }
        Vec3::dot(*self, *self)
    }

    pub fn len(&self) -> (r: i64)
        requires
            within(self@, VEC_LIMIT as int),
        ensures
            r == norms(self@),
            r >= 0,
    {
        let sq = self.len_squared();
        fx_sqrt(sq)
    }

    /// The unit-length companion of a vector: each component divided by the
    /// vector's fixed-point length. The vector must not be shorter than the
    /// smallest length this scale resolves.
    pub fn normalize(&self) -> (r: Self)
        requires
            within(self@, VEC_LIMIT as int),
            dots(self@, self@) >= 1,
        ensures
            r@ == vnormalize(self@),
            within(r@, 2 * SCALE as int),
    {
        proof {
            lemma_normalize_fits(self@);
        }
        let l = self.len();
        Vec3 { x: fx_div(self.x, l), y: fx_div(self.y, l), z: fx_div(self.z, l) }
    }
}

/// The dot product of two vectors within `VEC_LIMIT` fits the rescale to `i64`.
proof fn lemma_dot_fits(a: (int, int, int), b: (int, int, int))
    requires
        within(a, VEC_LIMIT as int),
        within(b, VEC_LIMIT as int),
    ensures
        i64::MIN * (SCALE as int) <= dotr(a, b) <= i64::MAX * (SCALE as int),
        tdiv(dotr(a, b), SCALE as int) == dots(a, b),
        i64::MIN <= tdiv(dotr(a, b), SCALE as int) <= i64::MAX,
{
    lemma_prod_within(a.0, b.0, VEC_LIMIT as int);
    lemma_prod_within(a.1, b.1, VEC_LIMIT as int);
    lemma_prod_within(a.2, b.2, VEC_LIMIT as int);
    lemma_tdiv_fits(dotr(a, b));
}

/// Each cross-product numerator of two vectors within `VEC_LIMIT` fits the
/// rescale to `i64`.
proof fn lemma_cross_fits(a: (int, int, int), b: (int, int, int))
    requires
        within(a, VEC_LIMIT as int),
        within(b, VEC_LIMIT as int),
    ensures
        i64::MIN * (SCALE as int) <= a.1 * b.2 - a.2 * b.1 <= i64::MAX * (SCALE as int),
        i64::MIN * (SCALE as int) <= a.2 * b.0 - a.0 * b.2 <= i64::MAX * (SCALE as int),
        i64::MIN * (SCALE as int) <= a.0 * b.1 - a.1 * b.0 <= i64::MAX * (SCALE as int),
        i64::MIN <= tdiv(a.1 * b.2 - a.2 * b.1, SCALE as int) <= i64::MAX,
        i64::MIN <= tdiv(a.2 * b.0 - a.0 * b.2, SCALE as int) <= i64::MAX,
        i64::MIN <= tdiv(a.0 * b.1 - a.1 * b.0, SCALE as int) <= i64::MAX,
{
    lemma_prod_within(a.0, b.0, VEC_LIMIT as int);
    lemma_prod_within(a.0, b.1, VEC_LIMIT as int);
    lemma_prod_within(a.0, b.2, VEC_LIMIT as int);
    lemma_prod_within(a.1, b.0, VEC_LIMIT as int);
    lemma_prod_within(a.1, b.1, VEC_LIMIT as int);
    lemma_prod_within(a.1, b.2, VEC_LIMIT as int);
    lemma_prod_within(a.2, b.0, VEC_LIMIT as int);
    lemma_prod_within(a.2, b.1, VEC_LIMIT as int);
    lemma_prod_within(a.2, b.2, VEC_LIMIT as int);
    lemma_tdiv_fits(a.1 * b.2 - a.2 * b.1);
    lemma_tdiv_fits(a.2 * b.0 - a.0 * b.2);
    lemma_tdiv_fits(a.0 * b.1 - a.1 * b.0);
}

/// A product of two scalars within `b` is within `b * b`.
pub proof fn lemma_prod_within(x: int, y: int, b: int)
    requires
        -b <= x <= b,
        -b <= y <= b,
        b >= 0,
    ensures
        -(b * b) <= x * y <= b * b,
{
    assert(-(b * b) <= x * y <= b * b) by (nonlinear_arith)
        requires
            -b <= x <= b,
            -b <= y <= b,
            b >= 0,
    ;
}

/// Truncated rescaling of any value within `i64::MAX * SCALE` lands in `i64`.
proof fn lemma_tdiv_fits(p: int)
    requires
        i64::MIN * (SCALE as int) <= p <= i64::MAX * (SCALE as int),
    ensures
        i64::MIN <= tdiv(p, SCALE as int) <= i64::MAX,
{
    if p >= 0 {
        assert(p / 65536 <= i64::MAX) by {
            assert(p <= i64::MAX * 65536);
        }
    } else {
        assert((-p) / 65536 <= -(i64::MIN as int)) by {
            assert(-p <= -(i64::MIN * 65536));
        }
    }
}

/// A vector dotted with itself is nonnegative.
pub proof fn lemma_dot_self_nonneg(v: (int, int, int))
    ensures
        dotr(v, v) >= 0,
        dots(v, v) >= 0,
{
    assert(v.0 * v.0 >= 0 && v.1 * v.1 >= 0 && v.2 * v.2 >= 0) by (nonlinear_arith);
}

/// Bounds needed to divide a vector by its own length: the length is at least
/// 256 steps, each component is within length plus 256, and both the division
/// arguments and its results stay in range.
proof fn lemma_normalize_fits(v: (int, int, int))
    requires
        within(v, VEC_LIMIT as int),
        dots(v, v) >= 1,
    ensures
        norms(v) >= 256,
        i64::MIN * norms(v) <= v.0 * (SCALE as int) <= i64::MAX * norms(v),
        i64::MIN * norms(v) <= v.1 * (SCALE as int) <= i64::MAX * norms(v),
        i64::MIN * norms(v) <= v.2 * (SCALE as int) <= i64::MAX * norms(v),
        within(vnormalize(v), 2 * SCALE as int),
{
    lemma_dot_self_nonneg(v);
    let s = SCALE as int;
    let q = dots(v, v);
    let l = norms(v);
    lemma_isqrt_property(q * s);
    assert(l * l <= q * s < (l + 1) * (l + 1));
    assert(l >= 256) by (nonlinear_arith)
        requires
            q >= 1,
            s == 65536,
            l >= 0,
            q * s < (l + 1) * (l + 1),
    ;
    // The raw squared norm exceeds q * s by less than one scale step.
    let raw = dotr(v, v);
    assert(q == raw / s);
    assert(q * s <= raw < q * s + s);
    assert(v.0 * v.0 <= raw && v.1 * v.1 <= raw && v.2 * v.2 <= raw) by (nonlinear_arith)
        requires
            raw == v.0 * v.0 + v.1 * v.1 + v.2 * v.2,
    ;
    lemma_component_small(v.0, raw, l, q);
    lemma_component_small(v.1, raw, l, q);
    lemma_component_small(v.2, raw, l, q);
    lemma_div_result_small(v.0, l);
    lemma_div_result_small(v.1, l);
    lemma_div_result_small(v.2, l);
}

/// A component of a vector is within the vector's length plus 256 steps.
proof fn lemma_component_small(x: int, raw: int, l: int, q: int)
    requires
        x * x <= raw,
        raw < q * 65536 + 65536,
        q * 65536 < (l + 1) * (l + 1),
        l >= 256,
    ensures
        -(l + 256) <= x <= l + 256,
{
    assert(x * x < (l + 256) * (l + 256)) by (nonlinear_arith)
        requires
            x * x <= raw,
            raw < q * 65536 + 65536,
            q * 65536 < (l + 1) * (l + 1),
            l >= 256,
    ;
    assert(-(l + 256) <= x <= l + 256) by (nonlinear_arith)
        requires
            x * x < (l + 256) * (l + 256),
            l >= 0,
    ;
}

/// Dividing a component within length plus 256 by the length stays within two
/// units, and the division arguments are in range.
proof fn lemma_div_result_small(x: int, l: int)
    requires
        -(l + 256) <= x <= l + 256,
        l >= 256,
    ensures
        i64::MIN * l <= x * 65536 <= i64::MAX * l,
        -2 * 65536 <= fdiv(x, l) <= 2 * 65536,
{
    assert(x * 65536 <= 2 * 65536 * l && -(2 * 65536 * l) <= x * 65536) by (nonlinear_arith)
        requires
            -(l + 256) <= x <= l + 256,
            l >= 256,
    ;
    assert(2 * 65536 * l <= i64::MAX * l) by (nonlinear_arith)
        requires
            l >= 256,
    ;
    if x >= 0 {
        assert(0 <= (x * 65536) / l <= 2 * 65536) by (nonlinear_arith)
            requires
                x * 65536 <= 2 * 65536 * l,
                x >= 0,
                l >= 256,
        ;
    } else {
        assert(0 <= (-(x * 65536)) / l <= 2 * 65536) by (nonlinear_arith)
            requires
                -(2 * 65536 * l) <= x * 65536 < 0,
                l >= 256,
        ;
    }
}

/// A vector in the unit band has every component within two units.
pub proof fn lemma_band_within(v: (int, int, int))
    requires
        unit_band(v),
    ensures
        within(v, 2 * SCALE as int),
{
    let s2 = dotr(v, v);
    assert(v.0 * v.0 <= s2 && v.1 * v.1 <= s2 && v.2 * v.2 <= s2) by (nonlinear_arith)
        requires
            s2 == v.0 * v.0 + v.1 * v.1 + v.2 * v.2,
    ;
    assert(-131072 <= v.0 <= 131072) by (nonlinear_arith)
        requires
            v.0 * v.0 < 17179934720,
    ;
    assert(-131072 <= v.1 <= 131072) by (nonlinear_arith)
        requires
            v.1 * v.1 < 17179934720,
    ;
    assert(-131072 <= v.2 <= 131072) by (nonlinear_arith)
        requires
            v.2 * v.2 < 17179934720,
    ;
}

/// Whether every component of a vector is within `b` in magnitude.
pub fn within_check(v: Vec3, b: i64) -> (r: bool)
    requires
        b >= 0,
    ensures
        r == within(v@, b as int),
{
    -b <= v.x && v.x <= b && -b <= v.y && v.y <= b && -b <= v.z && v.z <= b
}

/// Whether a vector's squared length lies in the unit band.
pub fn in_unit_band(v: Vec3) -> (r: bool)
    requires
        within(v@, VEC_LIMIT as int),
    ensures
        r == unit_band(v@),
{
    proof {
        lemma_dot_self_nonneg(v@);
    }
    let q = v.len_squared();
    16384 <= q && q <= 262144
}

/// Vector addition is commutative.
pub proof fn lemma_add_comm(a: (int, int, int), b: (int, int, int))
    ensures
        vadd(a, b) == vadd(b, a),
{
}

/// The dot product is symmetric.
pub proof fn lemma_dot_comm(a: (int, int, int), b: (int, int, int))
    ensures
        dots(a, b) == dots(b, a),
{
    assert(a.0 * b.0 == b.0 * a.0 && a.1 * b.1 == b.1 * a.1 && a.2 * b.2 == b.2 * a.2)
        by (nonlinear_arith);
}

/// The cross product of a vector with itself is the zero vector.
pub proof fn lemma_cross_self(a: (int, int, int))
    ensures
        vcross(a, a) == (0int, 0int, 0int),
{
    assert(a.1 * a.2 - a.2 * a.1 == 0 && a.2 * a.0 - a.0 * a.2 == 0 && a.0 * a.1 - a.1 * a.0 == 0)
        by (nonlinear_arith);
    assert(tdiv(0, SCALE as int) == 0);
}

} // verus!
