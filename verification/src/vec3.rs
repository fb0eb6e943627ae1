//! Three-component fixed-point vectors and their mathematical model.
//!
//! `Vec3` carries three `i64` scalars (see [`crate::fixed`]); its view is the
//! ghost vector `V3` over unbounded integers, on which every contract is
//! stated.  `Vec2` holds a surface coordinate.

use vstd::prelude::*;

verus! {

use crate::fixed::{
    SCALE, fmul_s, fdiv_s, clamp_s, isqrt_s, fmul_wide, fdiv_wide, fsqrt_wide, lemma_div_bounds,
};

/// Mathematical model of a `Vec3`: unbounded integer components.
pub struct V3 {
    pub x: int,
    pub y: int,
    pub z: int,
}

/// Mathematical model of a `Vec2`.
pub struct V2 {
    pub x: int,
    pub y: int,
}

/// A vector (or point, or colour) of three fixed-point scalars.
#[derive(Copy, Clone, Debug, PartialEq, Eq, Structural)]
pub struct Vec3(pub i64, pub i64, pub i64);

/// A two-component fixed-point vector, used for surface coordinates.
#[derive(Copy, Clone, Debug, PartialEq, Eq, Structural)]
pub struct Vec2(pub i64, pub i64);

impl View for Vec3 {
    type V = V3;

    open spec fn view(&self) -> V3 {
        V3 { x: self.0 as int, y: self.1 as int, z: self.2 as int }
    }
}

impl View for Vec2 {
    type V = V2;

    open spec fn view(&self) -> V2 {
        V2 { x: self.0 as int, y: self.1 as int }
    }
}

/// Whether an integer fits the `i64` scalar representation.
pub open spec fn si64(a: int) -> bool {
    i64::MIN <= a <= i64::MAX
}

/// Whether every component of `v` is at most `m` in magnitude.
pub open spec fn v3_bounded(v: V3, m: int) -> bool {
    &&& -m <= v.x <= m
    &&& -m <= v.y <= m
    &&& -m <= v.z <= m
}

pub open spec fn v3_add(a: V3, b: V3) -> V3 {
    V3 { x: a.x + b.x, y: a.y + b.y, z: a.z + b.z }
}

pub open spec fn v3_sub(a: V3, b: V3) -> V3 {
    V3 { x: a.x - b.x, y: a.y - b.y, z: a.z - b.z }
}

pub open spec fn v3_neg(a: V3) -> V3 {
    V3 { x: -a.x, y: -a.y, z: -a.z }
}

/// Componentwise scaled product with the scalar `k`.
pub open spec fn v3_scale(a: V3, k: int) -> V3 {
    V3 { x: fmul_s(a.x, k), y: fmul_s(a.y, k), z: fmul_s(a.z, k) }
}

/// Componentwise scaled quotient by the scalar `k`.
pub open spec fn v3_div(a: V3, k: int) -> V3 {
    V3 { x: fdiv_s(a.x, k), y: fdiv_s(a.y, k), z: fdiv_s(a.z, k) }
}

/// Componentwise scaled product of two vectors.
pub open spec fn v3_hadamard(a: V3, b: V3) -> V3 {
    V3 { x: fmul_s(a.x, b.x), y: fmul_s(a.y, b.y), z: fmul_s(a.z, b.z) }
}

/// Scaled dot product.
pub open spec fn v3_dot(a: V3, b: V3) -> int {
    fmul_s(a.x, b.x) + fmul_s(a.y, b.y) + fmul_s(a.z, b.z)
}

/// Scaled squared length.
pub open spec fn v3_sq_len(a: V3) -> int {
    v3_dot(a, a)
}

/// Scaled length: the rounded-down square root of the squared length.
pub open spec fn v3_len(a: V3) -> int {
    isqrt_s(v3_sq_len(a) * (SCALE as int))
}

pub open spec fn v3_cross(a: V3, b: V3) -> V3 {
    V3 {
        x: fmul_s(a.y, b.z) - fmul_s(a.z, b.y),
        y: fmul_s(a.z, b.x) - fmul_s(a.x, b.z),
        z: fmul_s(a.x, b.y) - fmul_s(a.y, b.x),
    }
}

/// The unit-direction of `a`, with each component clamped into the unit
/// range so that rounding can never push it outside; the zero vector stays
/// zero.
pub open spec fn v3_normalized(a: V3) -> V3 {
    let len = v3_len(a);
    if len == 0 {
        V3 { x: 0, y: 0, z: 0 }
    } else {
        V3 {
            x: clamp_s(fdiv_s(a.x, len), -(SCALE as int), SCALE as int),
            y: clamp_s(fdiv_s(a.y, len), -(SCALE as int), SCALE as int),
            z: clamp_s(fdiv_s(a.z, len), -(SCALE as int), SCALE as int),
        }
    }
}

/// Mirror of `v` about the plane with normal `n`.
pub open spec fn v3_reflect(v: V3, n: V3) -> V3 {
    v3_sub(v, v3_scale(n, 2 * v3_dot(v, n)))
}

/// Snell refraction of `v` at a surface with normal `n` and index ratio
/// `eta`: the tangential part is scaled by `eta` and the normal part is
/// rebuilt to keep the result unit length.
pub open spec fn v3_refract(v: V3, n: V3, eta: int) -> V3 {
    let cos_theta = v3_dot(v3_neg(v), n);
    let out_perp = v3_scale(v3_add(v, v3_scale(n, cos_theta)), eta);
    let rad = abs_s((SCALE as int) - v3_sq_len(out_perp));
    let root = isqrt_s(rad * (SCALE as int));
    v3_add(out_perp, v3_scale(n, -root))
}

pub open spec fn abs_s(a: int) -> int {
    if a < 0 {
        -a
    } else {
        a
    }
}

/// Magnitude bound on a scaled product of factors with separate bounds.
pub proof fn lemma_fmul_s_bound2(a: int, b: int, ma: int, mb: int)
    requires
        0 <= ma,
        0 <= mb,
        -ma <= a <= ma,
        -mb <= b <= mb,
    ensures
        fmul_s(a, b) <= (ma * mb) / (SCALE as int),
        fmul_s(a, b) >= -((ma * mb) / (SCALE as int)) - 1,
{
    assert(-(ma * mb) <= a * b <= ma * mb) by (nonlinear_arith)
        requires
            0 <= ma,
            0 <= mb,
            -ma <= a <= ma,
            -mb <= b <= mb,
    ;
    vstd::arithmetic::div_mod::lemma_div_is_ordered(a * b, ma * mb, SCALE as int);
    vstd::arithmetic::div_mod::lemma_div_is_ordered(-(ma * mb), a * b, SCALE as int);
    lemma_div_bounds(ma * mb, SCALE as int);
    crate::fixed::lemma_div_neg_numerator(ma * mb, SCALE as int);
}

/// Magnitude bound on a scaled product of bounded factors.
pub proof fn lemma_fmul_s_bound(a: int, b: int, m: int)
    requires
        0 <= m,
        -m <= a <= m,
        -m <= b <= m,
    ensures
        fmul_s(a, b) <= (m * m) / (SCALE as int),
        fmul_s(a, b) >= -((m * m) / (SCALE as int)) - 1,
{
    lemma_fmul_s_bound2(a, b, m, m);
}

/// Magnitude bound on a scaled dot product of bounded vectors.
pub proof fn lemma_v3_dot_bound(a: V3, b: V3, m: int)
    requires
        0 <= m,
        v3_bounded(a, m),
        v3_bounded(b, m),
    ensures
        -3 * ((m * m) / (SCALE as int)) - 3 <= v3_dot(a, b) <= 3 * ((m * m) / (SCALE as int)),
{
    lemma_fmul_s_bound(a.x, b.x, m);
    lemma_fmul_s_bound(a.y, b.y, m);
    lemma_fmul_s_bound(a.z, b.z, m);
}

impl Vec3 {
    pub fn zero() -> (r: Vec3)
        ensures
            r@ == (V3 { x: 0, y: 0, z: 0 }),
    {
        Vec3(0, 0, 0)
    }

    pub fn x(&self) -> (r: i64)
        ensures
            r as int == self@.x,
    {
        self.0
    }

    pub fn y(&self) -> (r: i64)
        ensures
            r as int == self@.y,
    {
        self.1
    }

    pub fn z(&self) -> (r: i64)
        ensures
            r as int == self@.z,
    {
        self.2
    }

    pub fn plus(self, o: Vec3) -> (r: Vec3)
        requires
            si64(self@.x + o@.x),
            si64(self@.y + o@.y),
            si64(self@.z + o@.z),
        ensures
            r@ == v3_add(self@, o@),
    {
        Vec3(self.0 + o.0, self.1 + o.1, self.2 + o.2)
    }

    pub fn minus(self, o: Vec3) -> (r: Vec3)
        requires
            si64(self@.x - o@.x),
            si64(self@.y - o@.y),
            si64(self@.z - o@.z),
        ensures
            r@ == v3_sub(self@, o@),
    {
        Vec3(self.0 - o.0, self.1 - o.1, self.2 - o.2)
    }

    pub fn negate(self) -> (r: Vec3)
        requires
            si64(-self@.x),
            si64(-self@.y),
            si64(-self@.z),
        ensures
            r@ == v3_neg(self@),
    {
        Vec3(-self.0, -self.1, -self.2)
    }

    pub fn scale(self, k: i64) -> (r: Vec3)
        requires
            si64(fmul_s(self@.x, k as int)),
            si64(fmul_s(self@.y, k as int)),
            si64(fmul_s(self@.z, k as int)),
        ensures
            r@ == v3_scale(self@, k as int),
    {
        Vec3(
            crate::fixed::fmul(self.0, k),
            crate::fixed::fmul(self.1, k),
            crate::fixed::fmul(self.2, k),
        )
    }

    pub fn div_by(self, k: i64) -> (r: Vec3)
        requires
            k != 0,
            si64(fdiv_s(self@.x, k as int)),
            si64(fdiv_s(self@.y, k as int)),
            si64(fdiv_s(self@.z, k as int)),
        ensures
            r@ == v3_div(self@, k as int),
    {
        Vec3(
            crate::fixed::fdiv(self.0, k),
            crate::fixed::fdiv(self.1, k),
            crate::fixed::fdiv(self.2, k),
        )
    }

    pub fn hadamard(self, o: Vec3) -> (r: Vec3)
        requires
            si64(fmul_s(self@.x, o@.x)),
            si64(fmul_s(self@.y, o@.y)),
            si64(fmul_s(self@.z, o@.z)),
        ensures
            r@ == v3_hadamard(self@, o@),
    {
        Vec3(
            crate::fixed::fmul(self.0, o.0),
            crate::fixed::fmul(self.1, o.1),
            crate::fixed::fmul(self.2, o.2),
        )
    }

    /// Scaled dot product, computed without overflow for any inputs.
    pub fn dot_wide(&self, o: &Vec3) -> (r: i128)
        ensures
            r as int == v3_dot(self@, o@),
    {
        proof {
            lemma_fmul_s_bound(self@.x, o@.x, 0x8000_0000_0000_0000);
            lemma_fmul_s_bound(self@.y, o@.y, 0x8000_0000_0000_0000);
            lemma_fmul_s_bound(self@.z, o@.z, 0x8000_0000_0000_0000);
        }
        let tx: i128 = fmul_wide(self.0, o.0);
        let ty: i128 = fmul_wide(self.1, o.1);
        let tz: i128 = fmul_wide(self.2, o.2);
        tx + ty + tz
    }

    pub fn dot(&self, o: Vec3) -> (r: i64)
        requires
            si64(v3_dot(self@, o@)),
        ensures
            r as int == v3_dot(self@, o@),
    {
        let w: i128 = self.dot_wide(&o);
        w as i64
    }

    pub fn sq_length(&self) -> (r: i64)
        requires
            si64(v3_sq_len(self@)),
        ensures
            r as int == v3_sq_len(self@),
            r >= 0,
    {
        proof {
            lemma_v3_sq_len_nonneg(self@);
        }
        let c = *self;
        self.dot(c)
    }

    pub fn length(&self) -> (r: i64)
        requires
            v3_bounded(self@, 0x4000_0000_0000_0000),
        ensures
            r as int == v3_len(self@),
            r >= 0,
    {
        proof {
            lemma_v3_sq_len_nonneg(self@);
            lemma_v3_dot_bound(self@, self@, 0x4000_0000_0000_0000);
        }
        let sq: i128 = self.dot_wide(self);
        let len: i128 = fsqrt_wide(sq);
        proof {
            assert(len <= 0x7fff_ffff_ffff_ffff) by (nonlinear_arith)
                requires
                    0 <= len,
                    len * len <= sq * 65536,
                    sq <= 3 * ((0x4000_0000_0000_0000 * 0x4000_0000_0000_0000) / 65536),
            ;
        }
        len as i64
    }

    pub fn cross(self, o: Vec3) -> (r: Vec3)
        requires
            si64(fmul_s(self@.y, o@.z) - fmul_s(self@.z, o@.y)),
            si64(fmul_s(self@.z, o@.x) - fmul_s(self@.x, o@.z)),
            si64(fmul_s(self@.x, o@.y) - fmul_s(self@.y, o@.x)),
        ensures
            r@ == v3_cross(self@, o@),
    {
        let x: i128 = fmul_wide(self.1, o.2) - fmul_wide(self.2, o.1);
        let y: i128 = fmul_wide(self.2, o.0) - fmul_wide(self.0, o.2);
        let z: i128 = fmul_wide(self.0, o.1) - fmul_wide(self.1, o.0);
        Vec3(x as i64, y as i64, z as i64)
    }

    /// Normalize in place; see `normalized`.
    pub fn normalize(&mut self)
        requires
            v3_bounded(old(self)@, 0x4000_0000_0000_0000),
        ensures
            final(self)@ == v3_normalized(old(self)@),
            v3_bounded(final(self)@, SCALE as int),
    {
        *self = self.normalized();
    }

    /// Unit direction with components clamped into the unit range;
    /// the zero vector is returned unchanged.
    pub fn normalized(&self) -> (r: Vec3)
        requires
            v3_bounded(self@, 0x4000_0000_0000_0000),
        ensures
            r@ == v3_normalized(self@),
            v3_bounded(r@, SCALE as int),
    {
        proof {
            lemma_v3_sq_len_nonneg(self@);
            lemma_v3_dot_bound(self@, self@, 0x4000_0000_0000_0000);
        }
        let sq: i128 = self.dot_wide(self);
        let len: i128 = fsqrt_wide(sq);
        proof {
            assert(len <= 0x7fff_ffff_ffff_ffff) by (nonlinear_arith)
                requires
                    0 <= len,
                    len * len <= sq * 65536,
                    sq <= 3 * ((0x4000_0000_0000_0000 * 0x4000_0000_0000_0000) / 65536),
            ;
        }
        if len == 0 {
            Vec3(0, 0, 0)
        } else {
            let lw: i64 = len as i64;
            let x: i128 = fdiv_wide(self.0 as i128, lw);
            let y: i128 = fdiv_wide(self.1 as i128, lw);
            let z: i128 = fdiv_wide(self.2 as i128, lw);
            let cx: i128 = clamp_wide(x);
            let cy: i128 = clamp_wide(y);
            let cz: i128 = clamp_wide(z);
            Vec3(cx as i64, cy as i64, cz as i64)
        }
    }
}

impl Vec3 {
    /// Mirror `self` about the plane with normal `normal`.
    pub fn reflect(self, normal: Vec3) -> (r: Vec3)
        requires
            v3_bounded(self@, 8 * SCALE),
            v3_bounded(normal@, 8 * SCALE),
        ensures
            r@ == v3_reflect(self@, normal@),
            v3_bounded(r@, 0x2000_0000),
    {
        proof {
            lemma_v3_dot_bound(self@, normal@, 524288);
        }
        let d: i128 = self.dot_wide(&normal);
        let k: i64 = (2 * d) as i64;
        proof {
            lemma_fmul_s_bound2(normal@.x, k as int, 524288, 0x2000000);
            lemma_fmul_s_bound2(normal@.y, k as int, 524288, 0x2000000);
            lemma_fmul_s_bound2(normal@.z, k as int, 524288, 0x2000000);
        }
        let sx: i128 = (self.0 as i128) - fmul_wide(normal.0, k);
        let sy: i128 = (self.1 as i128) - fmul_wide(normal.1, k);
        let sz: i128 = (self.2 as i128) - fmul_wide(normal.2, k);
        Vec3(sx as i64, sy as i64, sz as i64)
    }

    /// Snell refraction of `self` at a surface with normal `normal` and
    /// index ratio `eta`.
    pub fn refract(self, normal: Vec3, eta: i64) -> (r: Vec3)
        requires
            v3_bounded(self@, 2 * SCALE),
            v3_bounded(normal@, 2 * SCALE),
            -0x100_0000_0000 <= eta as int <= 0x100_0000_0000,
        ensures
            r@ == v3_refract(self@, normal@, eta as int),
            v3_bounded(r@, 0x4_0000_0000_0000),
    {
        proof {
            lemma_v3_dot_bound(v3_neg(self@), normal@, 131072);
        }
        let neg_self = self.negate();
        let cw: i128 = neg_self.dot_wide(&normal);
        let cos_theta: i64 = cw as i64;
        proof {
            lemma_fmul_s_bound2(normal@.x, cos_theta as int, 131072, 0x100000);
            lemma_fmul_s_bound2(normal@.y, cos_theta as int, 131072, 0x100000);
            lemma_fmul_s_bound2(normal@.z, cos_theta as int, 131072, 0x100000);
        }
        let scaled_n = normal.scale(cos_theta);
        let inner = self.plus(scaled_n);
        proof {
            lemma_fmul_s_bound2(inner@.x, eta as int, 0x400000, 0x100_0000_0000);
            lemma_fmul_s_bound2(inner@.y, eta as int, 0x400000, 0x100_0000_0000);
            lemma_fmul_s_bound2(inner@.z, eta as int, 0x400000, 0x100_0000_0000);
        }
        let out_perp = inner.scale(eta);
        proof {
            lemma_v3_dot_bound(out_perp@, out_perp@, 0x8000_0000_0000);
            lemma_v3_sq_len_nonneg(out_perp@);
        }
        let sq: i128 = out_perp.dot_wide(&out_perp);
        let rad: i128 = if (65536 as i128) - sq < 0 {
            sq - 65536
        } else {
            65536 - sq
        };
        let root_w: i128 = crate::fixed::fsqrt_wide(rad);
        proof {
            assert(root_w <= 0x1_0000_0000_0000) by (nonlinear_arith)
                requires
                    0 <= root_w,
                    root_w * root_w <= rad * 65536,
                    rad <= 0x1_0000_0000_0000_0000_0000,
            ;
        }
        let root: i64 = root_w as i64;
        proof {
            lemma_fmul_s_bound2(normal@.x, -root as int, 131072, 0x1_0000_0000_0000);
            lemma_fmul_s_bound2(normal@.y, -root as int, 131072, 0x1_0000_0000_0000);
            lemma_fmul_s_bound2(normal@.z, -root as int, 131072, 0x1_0000_0000_0000);
        }
        let sx: i128 = (out_perp.0 as i128) + fmul_wide(normal.0, -root);
        let sy: i128 = (out_perp.1 as i128) + fmul_wide(normal.1, -root);
        let sz: i128 = (out_perp.2 as i128) + fmul_wide(normal.2, -root);
        Vec3(sx as i64, sy as i64, sz as i64)
    }
}

/// Clamp a wide scalar into the unit range `[-SCALE, SCALE]`.
fn clamp_wide(a: i128) -> (r: i128)
    ensures
        r as int == clamp_s(a as int, -(SCALE as int), SCALE as int),
        -(SCALE as int) <= r as int <= SCALE as int,
{
    if a < -65536 {
        -65536
    } else if a > 65536 {
        65536
    } else {
        a
    }
}

/// A scaled square, and hence a scaled squared length, is never negative.
pub proof fn lemma_v3_sq_len_nonneg(a: V3)
    ensures
        fmul_s(a.x, a.x) >= 0,
        fmul_s(a.y, a.y) >= 0,
        fmul_s(a.z, a.z) >= 0,
        v3_sq_len(a) >= 0,
{
    assert(a.x * a.x >= 0) by (nonlinear_arith);
    assert(a.y * a.y >= 0) by (nonlinear_arith);
    assert(a.z * a.z >= 0) by (nonlinear_arith);
    lemma_div_bounds(a.x * a.x, SCALE as int);
    lemma_div_bounds(a.y * a.y, SCALE as int);
    lemma_div_bounds(a.z * a.z, SCALE as int);
}

} // verus!
