//! Rays: a plain ray and a time-stamped ray for moving geometry.

use vstd::prelude::*;

verus! {

use crate::fixed::fmul_s;
use crate::interval::Timestamp;
use crate::vec3::{si64, v3_add, v3_scale, V3, Vec3};

/// Mathematical model of a time-stamped ray.
pub struct TRay {
    pub origin: V3,
    pub direction: V3,
    pub time: int,
}

/// The point a ray reaches at parameter `t`.
pub open spec fn ray_at_s(origin: V3, direction: V3, t: int) -> V3 {
    v3_add(origin, v3_scale(direction, t))
}

/// A ray whose scalars are small enough for the intersection formulas.
pub open spec fn ray_wf(r: TRay) -> bool {
    &&& crate::vec3::v3_bounded(r.origin, crate::fixed::VMAX as int)
    &&& crate::vec3::v3_bounded(r.direction, crate::fixed::VMAX as int)
    &&& -(crate::fixed::VMAX as int) <= r.time <= crate::fixed::VMAX as int
}

/// A ray with an origin and a direction.
#[derive(Copy, Clone, Debug, PartialEq, Eq, Structural)]
pub struct Ray3 {
    origin: Vec3,
    direction: Vec3,
}

impl Ray3 {
    pub closed spec fn origin_s(self) -> V3 {
        self.origin@
    }

    pub closed spec fn direction_s(self) -> V3 {
        self.direction@
    }

    pub fn new(origin: Vec3, direction: Vec3) -> (r: Ray3)
        ensures
            r.origin_s() == origin@,
            r.direction_s() == direction@,
    {
        Ray3 { origin, direction }
    }

    pub fn origin(&self) -> (r: Vec3)
        ensures
            r@ == self.origin_s(),
    {
        self.origin
    }

    pub fn direction(&self) -> (r: Vec3)
        ensures
            r@ == self.direction_s(),
    {
        self.direction
    }

    pub fn at(&self, t: i64) -> (r: Vec3)
        requires
            si64(self.origin_s().x + fmul_s(self.direction_s().x, t as int)),
            si64(self.origin_s().y + fmul_s(self.direction_s().y, t as int)),
            si64(self.origin_s().z + fmul_s(self.direction_s().z, t as int)),
        ensures
            r@ == ray_at_s(self.origin_s(), self.direction_s(), t as int),
    {
        proof {
            crate::vec3::lemma_fmul_s_bound(self.direction_s().x, t as int, 0x8000_0000_0000_0000);
            crate::vec3::lemma_fmul_s_bound(self.direction_s().y, t as int, 0x8000_0000_0000_0000);
            crate::vec3::lemma_fmul_s_bound(self.direction_s().z, t as int, 0x8000_0000_0000_0000);
        }
        let sx: i128 = (self.origin.0 as i128) + crate::fixed::fmul_wide(self.direction.0, t);
        let sy: i128 = (self.origin.1 as i128) + crate::fixed::fmul_wide(self.direction.1, t);
        let sz: i128 = (self.origin.2 as i128) + crate::fixed::fmul_wide(self.direction.2, t);
        Vec3(sx as i64, sy as i64, sz as i64)
    }
}

/// A ray together with the shutter instant at which it was cast.
#[derive(Copy, Clone, Debug, PartialEq, Eq, Structural)]
pub struct TimeRay3 {
    origin: Vec3,
    direction: Vec3,
    time: Timestamp,
}

impl View for TimeRay3 {
    type V = TRay;

    closed spec fn view(&self) -> TRay {
        TRay { origin: self.origin@, direction: self.direction@, time: self.time as int }
    }
}

impl TimeRay3 {
    pub fn new(origin: Vec3, direction: Vec3, time: Timestamp) -> (r: Self)
        ensures
            r@.origin == origin@,
            r@.direction == direction@,
            r@.time == time as int,
    {
        Self { origin, direction, time }
    }

    pub fn from_ray(ray: Ray3) -> (r: Self)
        ensures
            r@.origin == ray.origin_s(),
            r@.direction == ray.direction_s(),
            r@.time == 0,
    {
        Self::new(ray.origin(), ray.direction(), 0)
    }

    pub fn to_ray(self) -> (r: Ray3)
        ensures
            r.origin_s() == self@.origin,
            r.direction_s() == self@.direction,
    {
        Ray3::new(self.origin, self.direction)
    }

    pub fn origin(&self) -> (r: Vec3)
        ensures
            r@ == self@.origin,
    {
        self.origin
    }

    pub fn direction(&self) -> (r: Vec3)
        ensures
            r@ == self@.direction,
    {
        self.direction
    }

    pub fn time(self) -> (r: Timestamp)
        ensures
            r as int == self@.time,
    {
        self.time
    }

    pub fn at(&self, t: i64) -> (r: Vec3)
        requires
            si64(self@.origin.x + fmul_s(self@.direction.x, t as int)),
            si64(self@.origin.y + fmul_s(self@.direction.y, t as int)),
            si64(self@.origin.z + fmul_s(self@.direction.z, t as int)),
        ensures
            r@ == ray_at_s(self@.origin, self@.direction, t as int),
    {
        proof {
            crate::vec3::lemma_fmul_s_bound(self@.direction.x, t as int, 0x8000_0000_0000_0000);
            crate::vec3::lemma_fmul_s_bound(self@.direction.y, t as int, 0x8000_0000_0000_0000);
            crate::vec3::lemma_fmul_s_bound(self@.direction.z, t as int, 0x8000_0000_0000_0000);
        }
        let sx: i128 = (self.origin.0 as i128) + crate::fixed::fmul_wide(self.direction.0, t);
        let sy: i128 = (self.origin.1 as i128) + crate::fixed::fmul_wide(self.direction.1, t);
        let sz: i128 = (self.origin.2 as i128) + crate::fixed::fmul_wide(self.direction.2, t);
        Vec3(sx as i64, sy as i64, sz as i64)
    }
}

} // verus!
