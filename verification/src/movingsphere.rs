//! A sphere whose centre moves linearly across a time span; intersection
//! evaluates the centre at the ray's shutter instant and then solves the
//! same quadratic as the sphere at rest.

use vstd::prelude::*;

verus! {

use crate::aabb::{box_merge, max_s, min_s, AABB};
use crate::fixed::{fdiv_s, fdiv_wide, fmul_s, fmul_ww, lemma_div_bounds, scalar_ok, VMAX};
use crate::hit::MaterialHitRecord;
use crate::interval::{Interval, Timestamp};
use crate::material::Material;
use crate::ray::{ray_wf, TimeRay3, TRay};
use crate::sphere::{sph_first_t, sph_hit_rec, sphere_box_s, sphere_hit_core};
use crate::vec3::{si64, v3_bounded, V3, Vec3};

/// How far across its span a moving centre has travelled at `time`.
pub open spec fn msph_frac(i0: int, i1: int, time: int) -> int {
    fdiv_s(time - i0, i1 - i0)
}

/// The centre at `time`: linear interpolation between the two endpoint
/// centres over the sphere's own span.
pub open spec fn msph_center(c0: V3, c1: V3, i0: int, i1: int, time: int) -> V3 {
    let f = msph_frac(i0, i1, time);
    V3 {
        x: c0.x + fmul_s(f, c1.x - c0.x),
        y: c0.y + fmul_s(f, c1.y - c0.y),
        z: c0.z + fmul_s(f, c1.z - c0.z),
    }
}

/// The reported parameter: none when the interpolated centre leaves the
/// representable range, else the sphere result at that centre.
pub open spec fn msph_first_t(
    c0: V3,
    c1: V3,
    i0: int,
    i1: int,
    radius: int,
    ray: TRay,
    t_min: int,
    t_max: int,
) -> Option<int> {
    let c = msph_center(c0, c1, i0, i1, ray.time);
    if !v3_bounded(c, VMAX as int) {
        None
    } else {
        sph_first_t(c, radius, ray, t_min, t_max)
    }
}

/// A sphere travelling between two centres across a time span.
#[derive(Copy, Clone, Debug, PartialEq, Eq, Structural)]
pub struct MovingSphere {
    start_center: Vec3,
    end_center: Vec3,
    time_interval: Interval,
    radius: i64,
    material: Material,
}

impl MovingSphere {
    pub closed spec fn start_center_s(self) -> V3 {
        self.start_center@
    }

    pub closed spec fn end_center_s(self) -> V3 {
        self.end_center@
    }

    pub closed spec fn interval_start_s(self) -> int {
        self.time_interval.start_s()
    }

    pub closed spec fn interval_end_s(self) -> int {
        self.time_interval.end_s()
    }

    pub closed spec fn radius_s(self) -> int {
        self.radius as int
    }

    pub closed spec fn material_s(self) -> Material {
        self.material
    }

    /// The centre this sphere has at `time`.
    pub open spec fn center_s(self, time: int) -> V3 {
        msph_center(
            self.start_center_s(),
            self.end_center_s(),
            self.interval_start_s(),
            self.interval_end_s(),
            time,
        )
    }

    pub open spec fn wf(self) -> bool {
        &&& v3_bounded(self.start_center_s(), VMAX as int)
        &&& v3_bounded(self.end_center_s(), VMAX as int)
        &&& scalar_ok(self.interval_start_s())
        &&& scalar_ok(self.interval_end_s())
        &&& self.interval_start_s() < self.interval_end_s()
        &&& -(VMAX as int) <= self.radius_s() <= VMAX as int
        &&& self.radius_s() != 0
    }

    pub fn new(
        start_center: Vec3,
        end_center: Vec3,
        time_interval: Interval,
        radius: i64,
        material: Material,
    ) -> (r: MovingSphere)
        requires
            v3_bounded(start_center@, VMAX as int),
            v3_bounded(end_center@, VMAX as int),
            scalar_ok(time_interval.start_s()),
            scalar_ok(time_interval.end_s()),
            time_interval.start_s() < time_interval.end_s(),
            -(VMAX as int) <= radius as int <= VMAX as int,
            radius != 0,
        ensures
            r.wf(),
            r.start_center_s() == start_center@,
            r.end_center_s() == end_center@,
            r.interval_start_s() == time_interval.start_s(),
            r.interval_end_s() == time_interval.end_s(),
            r.radius_s() == radius as int,
            r.material_s() == material,
    {
        MovingSphere { start_center, end_center, time_interval, radius, material }
    }

    pub fn radius(&self) -> (r: i64)
        ensures
            r as int == self.radius_s(),
    {
        self.radius
    }

    pub fn material(&self) -> (r: Material)
        ensures
            r == self.material_s(),
    {
        self.material
    }

    /// The interpolated centre's components, computed widely.
    fn center_wide(&self, timestamp: Timestamp) -> (r: (i128, i128, i128))
        requires
            self.wf(),
            scalar_ok(timestamp as int),
        ensures
            r.0 as int == self.center_s(timestamp as int).x,
            r.1 as int == self.center_s(timestamp as int).y,
            r.2 as int == self.center_s(timestamp as int).z,
    {
        let i0 = self.time_interval.start();
        let i1 = self.time_interval.end();
        let dt: i64 = i1 - i0;
        let tdiff: i128 = (timestamp as i128) - (i0 as i128);
        proof {
            lemma_div_bounds(tdiff * 65536, dt as int);
        }
        let frac: i128 = fdiv_wide(tdiff, dt);
        let dx: i128 = (self.end_center.0 as i128) - (self.start_center.0 as i128);
        let dy: i128 = (self.end_center.1 as i128) - (self.start_center.1 as i128);
        let dz: i128 = (self.end_center.2 as i128) - (self.start_center.2 as i128);
        proof {
            lemma_div_bounds(fmul_s(frac as int, dx as int) as int, 1);
            lemma_div_bounds(frac * dx, 65536);
            lemma_div_bounds(frac * dy, 65536);
            lemma_div_bounds(frac * dz, 65536);
            assert(-0x1000_0000_0000_0000 * 0x10_0000_0000 <= frac * dx <= 0x1000_0000_0000_0000
                * 0x10_0000_0000 && -0x1000_0000_0000_0000 * 0x10_0000_0000 <= frac * dy
                <= 0x1000_0000_0000_0000 * 0x10_0000_0000 && -0x1000_0000_0000_0000
                * 0x10_0000_0000 <= frac * dz <= 0x1000_0000_0000_0000 * 0x10_0000_0000)
                by (nonlinear_arith)
                requires
                    -0x1000_0000_0000_0000 <= frac <= 0x1000_0000_0000_0000,
                    -0x10_0000_0000 <= dx <= 0x10_0000_0000,
                    -0x10_0000_0000 <= dy <= 0x10_0000_0000,
                    -0x10_0000_0000 <= dz <= 0x10_0000_0000,
            ;
        }
        let cx: i128 = (self.start_center.0 as i128) + fmul_ww(frac, dx);
        let cy: i128 = (self.start_center.1 as i128) + fmul_ww(frac, dy);
        let cz: i128 = (self.start_center.2 as i128) + fmul_ww(frac, dz);
        (cx, cy, cz)
    }

    /// The centre at `timestamp`, when its components are representable.
    pub fn center(&self, timestamp: Timestamp) -> (r: Vec3)
        requires
            self.wf(),
            scalar_ok(timestamp as int),
            si64(self.center_s(timestamp as int).x),
            si64(self.center_s(timestamp as int).y),
            si64(self.center_s(timestamp as int).z),
        ensures
            r@ == self.center_s(timestamp as int),
    {
        let (cx, cy, cz) = self.center_wide(timestamp);
        Vec3(cx as i64, cy as i64, cz as i64)
    }

    /// Intersect a ray, with the centre the ray's shutter instant selects.
    pub fn hit(&self, ray: TimeRay3, t_min: i64, t_max: i64) -> (r: Option<MaterialHitRecord>)
        requires
            self.wf(),
            ray_wf(ray@),
        ensures
            match r {
                None => msph_first_t(
                    self.start_center_s(),
                    self.end_center_s(),
                    self.interval_start_s(),
                    self.interval_end_s(),
                    self.radius_s(),
                    ray@,
                    t_min as int,
                    t_max as int,
                ) is None,
                Some(rec) => {
                    &&& msph_first_t(
                        self.start_center_s(),
                        self.end_center_s(),
                        self.interval_start_s(),
                        self.interval_end_s(),
                        self.radius_s(),
                        ray@,
                        t_min as int,
                        t_max as int,
                    ) == Some(rec@.hit.t)
                    &&& rec@.hit == sph_hit_rec(
                        self.center_s(ray@.time),
                        self.radius_s(),
                        ray@,
                        rec@.hit.t,
                    )
                    &&& rec@.material == self.material_s()
                },
            },
    {
        let (cx, cy, cz) = self.center_wide(ray.time());
        if cx < -0x8_0000_0000 || cx > 0x8_0000_0000 || cy < -0x8_0000_0000 || cy > 0x8_0000_0000
            || cz < -0x8_0000_0000 || cz > 0x8_0000_0000 {
            return None;
        }
        let center = Vec3(cx as i64, cy as i64, cz as i64);
        sphere_hit_core(center, self.radius, self.material, ray, t_min, t_max)
    }

    /// The box that holds this sphere wherever the given span places it:
    /// the merge of its boxes at the span's two ends.
    pub fn bounding_box(&self, interval: Interval) -> (r: Option<AABB>)
        requires
            self.wf(),
            scalar_ok(interval.start_s()),
            scalar_ok(interval.end_s()),
            v3_bounded(self.center_s(interval.start_s()), VMAX as int),
            v3_bounded(self.center_s(interval.end_s()), VMAX as int),
        ensures
            r is Some,
            r.unwrap()@ == box_merge(
                sphere_box_s(self.center_s(interval.start_s()), self.radius_s()),
                sphere_box_s(self.center_s(interval.end_s()), self.radius_s()),
            ),
    {
        let rad: i64 = if self.radius < 0 {
            -self.radius + 1
        } else {
            self.radius + 1
        };
        let radius_vec = Vec3(rad, rad, rad);
        let c0 = self.center(interval.start());
        let c1 = self.center(interval.end());
        let box0 = AABB::new(c0.minus(radius_vec), c0.plus(radius_vec));
        let box1 = AABB::new(c1.minus(radius_vec), c1.plus(radius_vec));
        Some(box0.surrounding_box(&box1))
    }
}

/// Between two instants of a span, the interpolated centre stays
/// componentwise between the centres at the span's two ends.
pub proof fn lemma_msph_center_between(m: MovingSphere, i0: int, i1: int, tau: int)
    requires
        m.wf(),
        i0 <= tau <= i1,
    ensures
        min_s(m.center_s(i0).x, m.center_s(i1).x) <= m.center_s(tau).x <= max_s(
            m.center_s(i0).x,
            m.center_s(i1).x,
        ),
        min_s(m.center_s(i0).y, m.center_s(i1).y) <= m.center_s(tau).y <= max_s(
            m.center_s(i0).y,
            m.center_s(i1).y,
        ),
        min_s(m.center_s(i0).z, m.center_s(i1).z) <= m.center_s(tau).z <= max_s(
            m.center_s(i0).z,
            m.center_s(i1).z,
        ),
{
    let dt = m.interval_end_s() - m.interval_start_s();
    let f0 = msph_frac(m.interval_start_s(), m.interval_end_s(), i0);
    let ft = msph_frac(m.interval_start_s(), m.interval_end_s(), tau);
    let f1 = msph_frac(m.interval_start_s(), m.interval_end_s(), i1);
    crate::fixed::lemma_fdiv_s_monotone(
        i0 - m.interval_start_s(),
        tau - m.interval_start_s(),
        dt,
    );
    crate::fixed::lemma_fdiv_s_monotone(
        tau - m.interval_start_s(),
        i1 - m.interval_start_s(),
        dt,
    );
    let dx = m.end_center_s().x - m.start_center_s().x;
    let dy = m.end_center_s().y - m.start_center_s().y;
    let dz = m.end_center_s().z - m.start_center_s().z;
    crate::fixed::lemma_fmul_s_monotone(f0, ft, dx);
    crate::fixed::lemma_fmul_s_monotone(ft, f1, dx);
    crate::fixed::lemma_fmul_s_monotone(f0, ft, dy);
    crate::fixed::lemma_fmul_s_monotone(ft, f1, dy);
    crate::fixed::lemma_fmul_s_monotone(f0, ft, dz);
    crate::fixed::lemma_fmul_s_monotone(ft, f1, dz);
}

} // verus!
