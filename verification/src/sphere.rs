//! Ray/sphere intersection by the half-b quadratic, with an exact
//! fixed-point characterisation of which root, if any, is reported.

use vstd::prelude::*;

verus! {

use crate::fixed::{fdiv_s, fmul_s, fmul_wide, fdiv_wide, fsqrt_wide, isqrt_s, SCALE, VMAX};
use crate::hit::MaterialHitRecord;
use crate::hitrecord::{hitrec_s, HitRecS};
use crate::material::Material;
use crate::ray::{ray_at_s, ray_wf, TimeRay3, TRay};
use crate::vec3::{
    abs_s, lemma_fmul_s_bound2, lemma_v3_dot_bound, lemma_v3_sq_len_nonneg, si64, v3_bounded,
    v3_div, v3_dot, v3_normalized, v3_sq_len, v3_sub, V2, V3, Vec2, Vec3,
};

/// The vector from a sphere's centre to the ray origin.
pub open spec fn sph_oc(center: V3, ray: TRay) -> V3 {
    v3_sub(ray.origin, center)
}

/// The quadratic's leading coefficient: the direction's squared length.
pub open spec fn sph_a(ray: TRay) -> int {
    v3_sq_len(ray.direction)
}

/// Half the quadratic's linear coefficient.
pub open spec fn sph_half_b(center: V3, ray: TRay) -> int {
    v3_dot(sph_oc(center, ray), ray.direction)
}

/// The quadratic's constant coefficient.
pub open spec fn sph_c(center: V3, radius: int, ray: TRay) -> int {
    v3_sq_len(sph_oc(center, ray)) - fmul_s(radius, radius)
}

/// The quarter discriminant `half_b^2 - a c`.
pub open spec fn sph_disc(center: V3, radius: int, ray: TRay) -> int {
    fmul_s(sph_half_b(center, ray), sph_half_b(center, ray)) - fmul_s(
        sph_a(ray),
        sph_c(center, radius, ray),
    )
}

/// The discriminant's fixed-point square root.
pub open spec fn sph_sqrt_disc(center: V3, radius: int, ray: TRay) -> int {
    isqrt_s(sph_disc(center, radius, ray) * (SCALE as int))
}

/// The smaller root of the quadratic.
pub open spec fn sph_root1(center: V3, radius: int, ray: TRay) -> int {
    fdiv_s(-sph_half_b(center, ray) - sph_sqrt_disc(center, radius, ray), sph_a(ray))
}

/// The larger root of the quadratic.
pub open spec fn sph_root2(center: V3, radius: int, ray: TRay) -> int {
    fdiv_s(-sph_half_b(center, ray) + sph_sqrt_disc(center, radius, ray), sph_a(ray))
}

/// The geometric outward normal at parameter `t`.
pub open spec fn sph_outward(center: V3, radius: int, ray: TRay, t: int) -> V3 {
    v3_div(v3_sub(ray_at_s(ray.origin, ray.direction, t), center), radius)
}

/// One octant of the arctangent, as a fraction of a full turn: a quadratic
/// approximation of `atan(z) / (2 pi)` on `[0, 1]` that is exact at both
/// ends (zero at zero, an eighth of a turn at one).
pub open spec fn atan_octant_s(z: int) -> int {
    fmul_s(8192, z) + fmul_s(2848, fmul_s(z, (SCALE as int) - z))
}

/// The angle of the planar vector `(a, b)` from the positive first axis,
/// as a fraction of a full turn in `[0, 1)`; zero when both components are
/// zero.  Octant reduction keeps the approximation error of
/// `atan_octant_s` and makes every axis-aligned direction exact.
pub open spec fn atan2_turn_s(b: int, a: int) -> int {
    let az = abs_s(a);
    let bz = abs_s(b);
    if az == 0 && bz == 0 {
        0
    } else {
        let base = if az >= bz {
            atan_octant_s(fdiv_s(bz, az))
        } else {
            16384 - atan_octant_s(fdiv_s(az, bz))
        };
        if a >= 0 && b >= 0 {
            base
        } else if a < 0 && b >= 0 {
            32768 - base
        } else if a < 0 {
            32768 + base
        } else if base == 0 {
            0
        } else {
            65536 - base
        }
    }
}

/// The spherical chart: the point is normalized, the polar angle from the
/// downward vertical gives `v` and the longitude (shifted by half a turn,
/// so the seam lies behind the positive first axis) gives `u`, each as a
/// fixed-point fraction of `[0, 1]`.
pub open spec fn get_uv_s(p: V3) -> V2 {
    let n = v3_normalized(p);
    let phi_turn = atan2_turn_s(-n.z, n.x);
    let sin_theta = isqrt_s(((SCALE as int) - fmul_s(n.y, n.y)) * (SCALE as int));
    V2 {
        x: if phi_turn + 32768 >= 65536 {
            phi_turn + 32768 - 65536
        } else {
            phi_turn + 32768
        },
        y: 2 * atan2_turn_s(sin_theta, -n.y),
    }
}

/// Whether the record built at parameter `t` is representable: its scalars
/// stay inside the scalar range, and the hit point lies inside the sphere's
/// padded bounding box.  A root whose record is not — a hit at an
/// unrepresentable distance, or a point that rounding pushed more than one
/// grid step off the surface — is discarded; the box condition is what lets
/// a hierarchy of boxes prove it prunes no reportable hit.
pub open spec fn sph_rec_fits(center: V3, radius: int, ray: TRay, t: int) -> bool {
    let p = ray_at_s(ray.origin, ray.direction, t);
    &&& si64(p.x) && si64(p.y) && si64(p.z)
    &&& v3_bounded(sph_outward(center, radius, ray, t), 0x400_0000_0000)
    &&& crate::aabb::box_contains(sphere_box_s(center, radius), p)
}

/// Whether the root `t` is reported: strictly inside the search window and
/// representable.
pub open spec fn sph_accept(center: V3, radius: int, ray: TRay, t: int, t_min: int, t_max: int) -> bool {
    &&& t_min < t < t_max
    &&& sph_rec_fits(center, radius, ray, t)
}

/// The parameter of the reported hit: the smaller root if accepted, else
/// the larger, else none; a zero leading coefficient or a negative
/// discriminant reports no hit, while a zero discriminant evaluates the
/// double root.
pub open spec fn sph_first_t(center: V3, radius: int, ray: TRay, t_min: int, t_max: int) -> Option<
    int,
> {
    if sph_a(ray) == 0 || sph_disc(center, radius, ray) < 0 {
        None
    } else if sph_accept(center, radius, ray, sph_root1(center, radius, ray), t_min, t_max) {
        Some(sph_root1(center, radius, ray))
    } else if sph_accept(center, radius, ray, sph_root2(center, radius, ray), t_min, t_max) {
        Some(sph_root2(center, radius, ray))
    } else {
        None
    }
}

/// The record reported for a hit at parameter `t`.
pub open spec fn sph_hit_rec(center: V3, radius: int, ray: TRay, t: int) -> HitRecS {
    let ow = sph_outward(center, radius, ray, t);
    hitrec_s(ray_at_s(ray.origin, ray.direction, t), t, get_uv_s(ow), ray.direction, ow)
}

/// What a sphere-shaped hit query reports.
pub open spec fn sph_hit_post(
    center: V3,
    radius: int,
    material: Material,
    ray: TRay,
    t_min: int,
    t_max: int,
    r: Option<MaterialHitRecord>,
) -> bool {
    match r {
        None => sph_first_t(center, radius, ray, t_min, t_max) is None,
        Some(rec) => {
            &&& sph_first_t(center, radius, ray, t_min, t_max) == Some(rec@.hit.t)
            &&& rec@.hit == sph_hit_rec(center, radius, ray, rec@.hit.t)
            &&& rec@.material == material
        },
    }
}

/// Centre and radius small enough for the intersection formulas; the radius
/// may be negative (an inside-out sphere) but not zero.
pub open spec fn sphere_geom_wf(center: V3, radius: int) -> bool {
    &&& v3_bounded(center, VMAX as int)
    &&& -(VMAX as int) <= radius <= VMAX as int
    &&& radius != 0
}

/// A sphere at rest.
#[derive(Copy, Clone, Debug, PartialEq, Eq, Structural)]
pub struct Sphere {
    center: Vec3,
    radius: i64,
    material: Material,
}

impl Sphere {
    pub closed spec fn center_s(self) -> V3 {
        self.center@
    }

    pub closed spec fn radius_s(self) -> int {
        self.radius as int
    }

    pub closed spec fn material_s(self) -> Material {
        self.material
    }

    pub open spec fn wf(self) -> bool {
        sphere_geom_wf(self.center_s(), self.radius_s())
    }

    pub fn new(center: Vec3, radius: i64, material: Material) -> (r: Self)
        requires
            sphere_geom_wf(center@, radius as int),
        ensures
            r.wf(),
            r.center_s() == center@,
            r.radius_s() == radius as int,
            r.material_s() == material,
    {
        Self { center, radius, material }
    }

    pub fn center(&self) -> (r: Vec3)
        ensures
            r@ == self.center_s(),
    {
        self.center
    }

    pub fn radius(&self) -> (r: i64)
        ensures
            r as int == self.radius_s(),
    {
        self.radius
    }

    pub fn material(&self) -> (r: Material)
        ensures
            r == self.material_s(),
    {
        self.material
    }

    /// The surface coordinate of a point: the spherical chart, with the
    /// longitude and polar angle taken through the turn-based arctangent.
    pub fn get_uv(point: Vec3) -> (r: Vec2)
        requires
            v3_bounded(point@, 0x4000_0000_0000_0000),
        ensures
            r@ == get_uv_s(point@),
            0 <= r@.x <= SCALE as int,
            0 <= r@.y <= SCALE as int,
    {
        let n = point.normalized();
        let phi_turn: i64 = atan2_turn(-n.2, n.0);
        let u: i64 = if phi_turn + 32768 >= 65536 {
            phi_turn + 32768 - 65536
        } else {
            phi_turn + 32768
        };
        proof {
            lemma_fmul_s_bound2(n@.y, n@.y, 65536, 65536);
            assert(n@.y * n@.y >= 0) by (nonlinear_arith);
            crate::fixed::lemma_div_bounds(n@.y * n@.y, SCALE as int);
        }
        let sin_theta: i64 = crate::fixed::fsqrt(SCALE - crate::fixed::fmul(n.1, n.1));
        proof {
            assert(sin_theta as int <= SCALE as int) by (nonlinear_arith)
                requires
                    0 <= sin_theta as int,
                    (sin_theta as int) * (sin_theta as int) <= ((SCALE as int) - fmul_s(
                        n@.y as int,
                        n@.y as int,
                    )) * 65536,
                    0 <= fmul_s(n@.y as int, n@.y as int) <= 65536,
            ;
        }
        let v: i64 = 2 * atan2_turn(sin_theta, -n.1);
        Vec2(u, v)
    }

    /// Intersect a ray with this sphere inside `(t_min, t_max)`.
    pub fn hit(&self, ray: TimeRay3, t_min: i64, t_max: i64) -> (r: Option<MaterialHitRecord>)
        requires
            self.wf(),
            ray_wf(ray@),
        ensures
            sph_hit_post(
                self.center_s(),
                self.radius_s(),
                self.material_s(),
                ray@,
                t_min as int,
                t_max as int,
                r,
            ),
    {
        sphere_hit_core(self.center, self.radius, self.material, ray, t_min, t_max)
    }

    /// A sphere is bounded by the box centred on it whose half-width is the
    /// radius's magnitude padded by one grid step: the pad guarantees that
    /// every hit point the intersection routine can report lies inside the
    /// box, rounding included.
    pub fn bounding_box(&self, _interval: crate::interval::Interval) -> (r: Option<
        crate::aabb::AABB,
    >)
        requires
            self.wf(),
        ensures
            r is Some,
            r.unwrap()@ == sphere_box_s(self.center_s(), self.radius_s()),
    {
        let rad: i64 = if self.radius < 0 {
            -self.radius + 1
        } else {
            self.radius + 1
        };
        let radius_vec = Vec3(rad, rad, rad);
        Some(crate::aabb::AABB::new(self.center.minus(radius_vec), self.center.plus(radius_vec)))
    }
}

/// The box of a sphere at rest.
pub open spec fn sphere_box_s(center: V3, radius: int) -> crate::aabb::BoxS {
    let rad = abs_s(radius) + 1;
    crate::aabb::BoxS {
        min: V3 { x: center.x - rad, y: center.y - rad, z: center.z - rad },
        max: V3 { x: center.x + rad, y: center.y + rad, z: center.z + rad },
    }
}

/// The two roots come in order: the near root never exceeds the far root.
pub proof fn lemma_sph_roots_ordered(center: V3, radius: int, ray: TRay)
    requires
        sph_a(ray) != 0,
        sph_disc(center, radius, ray) >= 0,
    ensures
        sph_root1(center, radius, ray) <= sph_root2(center, radius, ray),
        sph_sqrt_disc(center, radius, ray) >= 0,
        sph_a(ray) >= 1,
{
    lemma_v3_sq_len_nonneg(ray.direction);
    crate::fixed::lemma_isqrt(sph_disc(center, radius, ray) * (SCALE as int));
    let hb = sph_half_b(center, ray);
    let sq = sph_sqrt_disc(center, radius, ray);
    vstd::arithmetic::div_mod::lemma_div_is_ordered(
        (-hb - sq) * (SCALE as int),
        (-hb + sq) * (SCALE as int),
        sph_a(ray),
    );
}

/// Tightening the window's far end keeps exactly the hits that fall before
/// it.
pub proof fn lemma_sph_first_t_shrink(
    center: V3,
    radius: int,
    ray: TRay,
    t_min: int,
    b: int,
    t_max: int,
)
    requires
        b <= t_max,
    ensures
        sph_first_t(center, radius, ray, t_min, b) == (match sph_first_t(
            center,
            radius,
            ray,
            t_min,
            t_max,
        ) {
            Some(t) => if t < b {
                Some(t)
            } else {
                None::<int>
            },
            None => None::<int>,
        }),
{
    if sph_a(ray) == 0 || sph_disc(center, radius, ray) < 0 {
    } else {
        lemma_sph_roots_ordered(center, radius, ray);
    }
}

/// A ratio of a shorter leg to a longer one stays within the unit range.
proof fn lemma_uv_quotient(x: int, s: int)
    requires
        s >= 1,
        0 <= x <= s,
    ensures
        0 <= fdiv_s(x, s) <= SCALE as int,
{
    assert(x * 65536 <= s * 65536 && 0 <= x * 65536) by (nonlinear_arith)
        requires
            0 <= x <= s,
    ;
    crate::fixed::lemma_div_bounds(x * 65536, s);
    vstd::arithmetic::div_mod::lemma_div_is_ordered(x * 65536, s * 65536, s);
    assert((s * 65536) / s == 65536) by {
        vstd::arithmetic::div_mod::lemma_div_multiples_vanish(65536, s);
        assert(s * 65536 == 65536 * s) by (nonlinear_arith);
    }
}

/// Bounds of the octant approximation: it never leaves `[0, 8904]`, well
/// inside one eighth of a turn plus its correction.
proof fn lemma_atan_octant_bounds(z: int)
    requires
        0 <= z <= 65536,
    ensures
        0 <= fmul_s(8192, z) <= 8192,
        0 <= fmul_s(z, 65536 - z) <= 16384,
        0 <= fmul_s(2848, fmul_s(z, 65536 - z)) <= 712,
        0 <= atan_octant_s(z) <= 8904,
{
    assert(0 <= 8192 * z <= (8192 * 65536) as int) by (nonlinear_arith)
        requires
            0 <= z <= 65536,
    ;
    crate::fixed::lemma_div_bounds(8192 * z, SCALE as int);
    vstd::arithmetic::div_mod::lemma_div_is_ordered(8192 * z, (8192 * 65536) as int, SCALE as int);
    assert(((8192 * 65536) as int) / (SCALE as int) == 8192) by {
        vstd::arithmetic::div_mod::lemma_div_multiples_vanish(8192, 65536);
        assert((8192 * 65536) as int == 65536 * 8192) by (nonlinear_arith);
    }
    assert(0 <= z * (65536 - z) <= (16384 * 65536) as int) by (nonlinear_arith)
        requires
            0 <= z <= 65536,
    ;
    crate::fixed::lemma_div_bounds(z * (65536 - z), SCALE as int);
    vstd::arithmetic::div_mod::lemma_div_is_ordered(z * (65536 - z), (16384 * 65536) as int, SCALE as int);
    assert(((16384 * 65536) as int) / (SCALE as int) == 16384) by {
        vstd::arithmetic::div_mod::lemma_div_multiples_vanish(16384, 65536);
        assert((16384 * 65536) as int == 65536 * 16384) by (nonlinear_arith);
    }
    let q = fmul_s(z, 65536 - z);
    assert(0 <= 2848 * q <= (2848 * 16384) as int) by (nonlinear_arith)
        requires
            0 <= q <= 16384,
    ;
    crate::fixed::lemma_div_bounds(2848 * q, SCALE as int);
    vstd::arithmetic::div_mod::lemma_div_is_ordered(2848 * q, (2848 * 16384) as int, SCALE as int);
}

/// One octant of the arctangent, in turns.
fn atan_octant(z: i64) -> (r: i64)
    requires
        0 <= z as int <= SCALE as int,
    ensures
        r as int == atan_octant_s(z as int),
        0 <= r as int <= 8904,
{
    proof {
        lemma_atan_octant_bounds(z as int);
    }
    crate::fixed::fmul(8192, z) + crate::fixed::fmul(2848, crate::fixed::fmul(z, SCALE - z))
}

/// The angle of `(a, b)` from the positive first axis, in turns.
fn atan2_turn(b: i64, a: i64) -> (r: i64)
    requires
        -(SCALE as int) <= a as int <= SCALE as int,
        -(SCALE as int) <= b as int <= SCALE as int,
    ensures
        r as int == atan2_turn_s(b as int, a as int),
        0 <= r < 65536,
        b >= 0 ==> r <= 32768,
{
    let az: i64 = if a < 0 {
        -a
    } else {
        a
    };
    let bz: i64 = if b < 0 {
        -b
    } else {
        b
    };
    if az == 0 && bz == 0 {
        return 0;
    }
    let base: i64 = if az >= bz {
        proof {
            lemma_uv_quotient(bz as int, az as int);
        }
        atan_octant(crate::fixed::fdiv(bz, az))
    } else {
        proof {
            lemma_uv_quotient(az as int, bz as int);
        }
        16384 - atan_octant(crate::fixed::fdiv(az, bz))
    };
    if a >= 0 && b >= 0 {
        base
    } else if a < 0 && b >= 0 {
        32768 - base
    } else if a < 0 {
        32768 + base
    } else if base == 0 {
        0
    } else {
        65536 - base
    }
}

/// The shared quadratic solver: which root is reported, and the record
/// built for it, for a sphere of the given centre, radius and material.
pub(crate) fn sphere_hit_core(
    center: Vec3,
    radius: i64,
    material: Material,
    ray: TimeRay3,
    t_min: i64,
    t_max: i64,
) -> (r: Option<MaterialHitRecord>)
    requires
        sphere_geom_wf(center@, radius as int),
        ray_wf(ray@),
    ensures
        sph_hit_post(center@, radius as int, material, ray@, t_min as int, t_max as int, r),
{
    let o = ray.origin();
    let d = ray.direction();
    proof {
        lemma_v3_dot_bound(d@, d@, 0x8_0000_0000);
        lemma_v3_dot_bound(v3_sub(o@, center@), d@, 0x10_0000_0000);
        lemma_v3_dot_bound(v3_sub(o@, center@), v3_sub(o@, center@), 0x10_0000_0000);
        lemma_fmul_s_bound2(radius as int, radius as int, 0x8_0000_0000, 0x8_0000_0000);
        lemma_v3_sq_len_nonneg(d@);
        lemma_v3_sq_len_nonneg(v3_sub(o@, center@));
    }
    let oc = o.minus(center);
    let aw: i128 = d.dot_wide(&d);
    let a: i64 = aw as i64;
    let hbw: i128 = oc.dot_wide(&d);
    let half_b: i64 = hbw as i64;
    let ocsq: i128 = oc.dot_wide(&oc);
    let rr: i128 = fmul_wide(radius, radius);
    let c: i64 = (ocsq - rr) as i64;
    proof {
        lemma_fmul_s_bound2(half_b as int, half_b as int, 0x400_0000_0000_0000, 0x400_0000_0000_0000);
        lemma_fmul_s_bound2(a as int, c as int, 0x400_0000_0000_0000, 0x400_0000_0000_0000);
    }
    let disc: i128 = fmul_wide(half_b, half_b) - fmul_wide(a, c);
    if a == 0 {
        return None;
    }
    if disc < 0 {
        return None;
    }
    let sqrtd: i128 = fsqrt_wide(disc);
    proof {
        assert(sqrtd <= 0x800_0000_0000_0000) by (nonlinear_arith)
            requires
                0 <= sqrtd,
                sqrtd * sqrtd <= disc * 65536,
                disc <= 0x40_0000_0000_0000_0000_0000_0000,
        ;
    }
    let root1: i128 = fdiv_wide(-(half_b as i128) - sqrtd, a);
    match check_root(center, radius, material, ray, root1, t_min, t_max) {
        Some(rec) => Some(rec),
        None => {
            let root2: i128 = fdiv_wide(-(half_b as i128) + sqrtd, a);
            check_root(center, radius, material, ray, root2, t_min, t_max)
        },
    }
}

/// Build the record for one candidate root, or reject it: the root is
/// reported only when it lies strictly inside the window and the record's
/// scalars are representable.
fn check_root(
    center: Vec3,
    radius: i64,
    material: Material,
    ray: TimeRay3,
    val: i128,
    t_min: i64,
    t_max: i64,
) -> (r: Option<MaterialHitRecord>)
    requires
        sphere_geom_wf(center@, radius as int),
        ray_wf(ray@),
    ensures
        match r {
            None => !sph_accept(center@, radius as int, ray@, val as int, t_min as int, t_max as int),
            Some(rec) => {
                &&& sph_accept(center@, radius as int, ray@, val as int, t_min as int, t_max as int)
                &&& rec@.hit.t == val as int
                &&& rec@.hit == sph_hit_rec(center@, radius as int, ray@, val as int)
                &&& rec@.material == material
            },
        },
{
    if !((t_min as i128) < val && val < (t_max as i128)) {
        return None;
    }
    let t: i64 = val as i64;
    let o = ray.origin();
    let d = ray.direction();
    proof {
        crate::vec3::lemma_fmul_s_bound(d@.x, t as int, 0x8000_0000_0000_0000);
        crate::vec3::lemma_fmul_s_bound(d@.y, t as int, 0x8000_0000_0000_0000);
        crate::vec3::lemma_fmul_s_bound(d@.z, t as int, 0x8000_0000_0000_0000);
    }
    let pxw: i128 = (o.0 as i128) + fmul_wide(d.0, t);
    let pyw: i128 = (o.1 as i128) + fmul_wide(d.1, t);
    let pzw: i128 = (o.2 as i128) + fmul_wide(d.2, t);
    if pxw < -0x7fff_ffff_ffff_ffff - 1 || pxw > 0x7fff_ffff_ffff_ffff || pyw
        < -0x7fff_ffff_ffff_ffff - 1 || pyw > 0x7fff_ffff_ffff_ffff || pzw
        < -0x7fff_ffff_ffff_ffff - 1 || pzw > 0x7fff_ffff_ffff_ffff {
        return None;
    }
    let point = Vec3(pxw as i64, pyw as i64, pzw as i64);
    let rad: i128 = if radius < 0 {
        -(radius as i128) + 1
    } else {
        (radius as i128) + 1
    };
    let cx: i128 = center.0 as i128;
    let cy: i128 = center.1 as i128;
    let cz: i128 = center.2 as i128;
    if pxw < cx - rad || pxw > cx + rad || pyw < cy - rad || pyw > cy + rad || pzw < cz - rad
        || pzw > cz + rad {
        return None;
    }
    let owx: i128 = fdiv_wide((point.0 as i128) - (center.0 as i128), radius);
    let owy: i128 = fdiv_wide((point.1 as i128) - (center.1 as i128), radius);
    let owz: i128 = fdiv_wide((point.2 as i128) - (center.2 as i128), radius);
    if owx < -0x400_0000_0000 || owx > 0x400_0000_0000 || owy < -0x400_0000_0000 || owy
        > 0x400_0000_0000 || owz < -0x400_0000_0000 || owz > 0x400_0000_0000 {
        return None;
    }
    let outward_normal = Vec3(owx as i64, owy as i64, owz as i64);
    let text_coord = Sphere::get_uv(outward_normal);
    proof {
        lemma_fmul_s_bound2(d@.x, outward_normal@.x, 0x8_0000_0000, 0x400_0000_0000);
        lemma_fmul_s_bound2(d@.y, outward_normal@.y, 0x8_0000_0000, 0x400_0000_0000);
        lemma_fmul_s_bound2(d@.z, outward_normal@.z, 0x8_0000_0000, 0x400_0000_0000);
    }
    Some(MaterialHitRecord::new(point, t, ray.to_ray(), text_coord, outward_normal, material))
}

} // verus!
