//! Axis-aligned bounding boxes with a merge operation and an exact slab
//! intersection test.
//!
//! The slab test decides whether some integer ray parameter strictly inside
//! `(t_min, t_max)` lands the ray inside the box; its contract characterises
//! the answer exactly, so the hierarchy built on it can be proved to agree
//! with a flat scan.

use vstd::prelude::*;

verus! {

use crate::fixed::{fmul_s, lemma_div_bounds, SCALE};
use crate::ray::TimeRay3;
use crate::vec3::{V3, Vec3};
use vstd::arithmetic::div_mod::lemma_fundamental_div_mod;

/// Mathematical model of a box: two corner points.
pub struct BoxS {
    pub min: V3,
    pub max: V3,
}

pub open spec fn min_s(a: int, b: int) -> int {
    if a < b {
        a
    } else {
        b
    }
}

pub open spec fn max_s(a: int, b: int) -> int {
    if a > b {
        a
    } else {
        b
    }
}

/// The smallest box containing both arguments.
pub open spec fn box_merge(a: BoxS, b: BoxS) -> BoxS {
    BoxS {
        min: V3 {
            x: min_s(a.min.x, b.min.x),
            y: min_s(a.min.y, b.min.y),
            z: min_s(a.min.z, b.min.z),
        },
        max: V3 {
            x: max_s(a.max.x, b.max.x),
            y: max_s(a.max.y, b.max.y),
            z: max_s(a.max.z, b.max.z),
        },
    }
}

/// Whether the point `p` lies inside the box (inclusive).
pub open spec fn box_contains(b: BoxS, p: V3) -> bool {
    &&& b.min.x <= p.x <= b.max.x
    &&& b.min.y <= p.y <= b.max.y
    &&& b.min.z <= p.z <= b.max.z
}

/// Whether every point of `inner` is also a point of `outer`.
pub open spec fn box_inside(inner: BoxS, outer: BoxS) -> bool {
    &&& outer.min.x <= inner.min.x && inner.max.x <= outer.max.x
    &&& outer.min.y <= inner.min.y && inner.max.y <= outer.max.y
    &&& outer.min.z <= inner.min.z && inner.max.z <= outer.max.z
}

/// Merging yields a box that contains both of its arguments.
pub proof fn lemma_merge_contains_both(a: BoxS, b: BoxS)
    ensures
        box_inside(a, box_merge(a, b)),
        box_inside(b, box_merge(a, b)),
{
}

/// Merging is commutative.
pub proof fn lemma_merge_commutative(a: BoxS, b: BoxS)
    ensures
        box_merge(a, b) == box_merge(b, a),
{
}

/// Merging is associative.
pub proof fn lemma_merge_associative(a: BoxS, b: BoxS, c: BoxS)
    ensures
        box_merge(box_merge(a, b), c) == box_merge(a, box_merge(b, c)),
{
}

/// Whether the ray reaches a coordinate between `mn` and `mx` on one axis
/// at parameter `t`.
pub open spec fn axis_ok(o: int, d: int, mn: int, mx: int, t: int) -> bool {
    mn <= o + fmul_s(d, t) <= mx
}

/// Whether the ray point at parameter `t` lies inside the box.
pub open spec fn at_in_box(b: BoxS, origin: V3, dir: V3, t: int) -> bool {
    &&& axis_ok(origin.x, dir.x, b.min.x, b.max.x, t)
    &&& axis_ok(origin.y, dir.y, b.min.y, b.max.y, t)
    &&& axis_ok(origin.z, dir.z, b.min.z, b.max.z, t)
}

/// Whether some integer parameter strictly inside `(t_min, t_max)` puts the
/// ray inside the box.
pub open spec fn slab_hit_s(b: BoxS, origin: V3, dir: V3, t_min: int, t_max: int) -> bool {
    exists|t: int| t_min < t < t_max && at_in_box(b, origin, dir, t)
}

/// Scaling by a positive factor preserves order against a bound.
proof fn lemma_mul_le_div(d: int, t: int, b: int)
    requires
        d >= 1,
    ensures
        (d * t <= b) <==> (t <= b / d),
{
    lemma_fundamental_div_mod(b, d);
    let q = b / d;
    let r = b % d;
    assert((d * t <= b) <==> (t <= q)) by (nonlinear_arith)
        requires
            d >= 1,
            b == d * q + r,
            0 <= r < d,
    ;
}

proof fn lemma_mul_ge_div(d: int, t: int, a: int)
    requires
        d >= 1,
    ensures
        (d * t >= a) <==> (t >= -((-a) / d)),
{
    lemma_mul_le_div(d, -t, -a);
    assert(d * (-t) == -(d * t)) by (nonlinear_arith);
}

/// How a floored rescale compares against integer bounds.
proof fn lemma_scale_floor(x: int, m: int)
    ensures
        (x / (SCALE as int) >= m) <==> (x >= m * (SCALE as int)),
        (x / (SCALE as int) <= m) <==> (x <= m * (SCALE as int) + (SCALE as int) - 1),
{
    lemma_fundamental_div_mod(x, SCALE as int);
    let q = x / (SCALE as int);
    let r = x % (SCALE as int);
    assert((q >= m) <==> (x >= m * 65536)) by (nonlinear_arith)
        requires
            x == 65536 * q + r,
            0 <= r < 65536,
    ;
    assert((q <= m) <==> (x <= m * 65536 + 65535)) by (nonlinear_arith)
        requires
            x == 65536 * q + r,
            0 <= r < 65536,
    ;
}

/// Euclidean quotient by a positive divisor, on wide operands.
fn floor_div(a: i128, d: i128) -> (r: i128)
    requires
        d >= 1,
        -0x4000_0000_0000_0000_0000_0000_0000_0000 <= a < 0x4000_0000_0000_0000_0000_0000_0000_0000,
    ensures
        r as int == (a as int) / (d as int),
        a >= 0 ==> 0 <= r <= a,
        a < 0 ==> a <= r <= 0,
{
    proof {
        lemma_div_bounds(a as int, d as int);
    }
    a.checked_div_euclid(d).unwrap()
}

/// A box bounded by two corner points.
#[derive(Copy, Clone, Debug, PartialEq, Eq, Structural)]
pub struct AABB {
    min: Vec3,
    max: Vec3,
}

impl View for AABB {
    type V = BoxS;

    closed spec fn view(&self) -> BoxS {
        BoxS { min: self.min@, max: self.max@ }
    }
}

impl AABB {
    pub fn new(min: Vec3, max: Vec3) -> (r: AABB)
        ensures
            r@.min == min@,
            r@.max == max@,
    {
        AABB { min, max }
    }

    pub fn min(&self) -> (r: Vec3)
        ensures
            r@ == self@.min,
    {
        self.min
    }

    pub fn max(&self) -> (r: Vec3)
        ensures
            r@ == self@.max,
    {
        self.max
    }

    /// The smallest box containing `self` and `other`.
    pub fn surrounding_box(&self, other: &Self) -> (r: Self)
        ensures
            r@ == box_merge(self@, other@),
    {
        let small = Vec3(
            if self.min.0 < other.min.0 {
                self.min.0
            } else {
                other.min.0
            },
            if self.min.1 < other.min.1 {
                self.min.1
            } else {
                other.min.1
            },
            if self.min.2 < other.min.2 {
                self.min.2
            } else {
                other.min.2
            },
        );
        let big = Vec3(
            if self.max.0 > other.max.0 {
                self.max.0
            } else {
                other.max.0
            },
            if self.max.1 > other.max.1 {
                self.max.1
            } else {
                other.max.1
            },
            if self.max.2 > other.max.2 {
                self.max.2
            } else {
                other.max.2
            },
        );
        AABB::new(small, big)
    }

    /// The slab test: whether some integer parameter strictly between
    /// `t_min` and `t_max` lands the ray inside the box.
    pub fn hit(&self, ray: &TimeRay3, t_min: i64, t_max: i64) -> (r: bool)
        ensures
            r == slab_hit_s(self@, ray@.origin, ray@.direction, t_min as int, t_max as int),
    {
        let o = ray.origin();
        let d = ray.direction();
        let mut lo: i128 = (t_min as i128) + 1;
        let mut hi: i128 = (t_max as i128) - 1;
        let ghost b = self@;
        let ghost og = o@;
        let ghost dg = d@;

        let ax = axis_interval(o.0, d.0, self.min.0, self.max.0);
        if ax.is_none() {
            proof {
                assert forall|t: int| t_min < t < t_max implies !at_in_box(b, og, dg, t) by {
                    assert(!axis_ok(og.x, dg.x, b.min.x, b.max.x, t));
                }
            }
            return false;
        }
        let (axl, axh) = ax.unwrap();
        if axl > lo {
            lo = axl;
        }
        if axh < hi {
            hi = axh;
        }

        let ay = axis_interval(o.1, d.1, self.min.1, self.max.1);
        if ay.is_none() {
            proof {
                assert forall|t: int| t_min < t < t_max implies !at_in_box(b, og, dg, t) by {
                    assert(!axis_ok(og.y, dg.y, b.min.y, b.max.y, t));
                }
            }
            return false;
        }
        let (ayl, ayh) = ay.unwrap();
        if ayl > lo {
            lo = ayl;
        }
        if ayh < hi {
            hi = ayh;
        }

        let az = axis_interval(o.2, d.2, self.min.2, self.max.2);
        if az.is_none() {
            proof {
                assert forall|t: int| t_min < t < t_max implies !at_in_box(b, og, dg, t) by {
                    assert(!axis_ok(og.z, dg.z, b.min.z, b.max.z, t));
                }
            }
            return false;
        }
        let (azl, azh) = az.unwrap();
        if azl > lo {
            lo = azl;
        }
        if azh < hi {
            hi = azh;
        }

        if lo <= hi {
            proof {
                assert(t_min < lo < t_max);
                assert(-0x2000_0000_0000_0000_0000 <= lo <= 0x2000_0000_0000_0000_0000);
                assert(at_in_box(b, og, dg, lo as int));
                assert(slab_hit_s(b, og, dg, t_min as int, t_max as int));
            }
            true
        } else {
            proof {
                assert forall|t: int| t_min < t < t_max implies !at_in_box(b, og, dg, t) by {
                    if at_in_box(b, og, dg, t) {
                        assert(-0x2000_0000_0000_0000_0000 <= t <= 0x2000_0000_0000_0000_0000);
                        assert(axl <= t <= axh);
                        assert(ayl <= t <= ayh);
                        assert(azl <= t <= azh);
                        assert(lo <= t <= hi);
                    }
                }
            }
            false
        }
    }
}

/// The set of parameters satisfying one slab axis: `None` when no parameter
/// does, otherwise an interval that is exact for every parameter within
/// `2^85` of zero.
fn axis_interval(o: i64, d: i64, mn: i64, mx: i64) -> (r: Option<(i128, i128)>)
    ensures
        r.is_none() ==> forall|t: int| !axis_ok(o as int, d as int, mn as int, mx as int, t),
        r.is_some() ==> forall|t: int|
            -0x2000_0000_0000_0000_0000 <= t <= 0x2000_0000_0000_0000_0000 ==> (axis_ok(
                o as int,
                d as int,
                mn as int,
                mx as int,
                t,
            ) <==> r.unwrap().0 <= t && t <= r.unwrap().1),
{
    let lo_num: i128 = ((mn as i128) - (o as i128)) * 65536;
    let hi_num: i128 = ((mx as i128) - (o as i128)) * 65536 + 65535;
    if d == 0 {
        if o < mn || o > mx {
            proof {
                assert forall|t: int| !axis_ok(o as int, 0, mn as int, mx as int, t) by {
                    assert(fmul_s(0, t) == 0);
                }
            }
            None
        } else {
            proof {
                assert forall|t: int| axis_ok(o as int, 0, mn as int, mx as int, t) by {
                    assert(fmul_s(0, t) == 0);
                }
            }
            Some((-0x4000_0000_0000_0000_0000, 0x4000_0000_0000_0000_0000))
        }
    } else if d > 0 {
        let alo: i128 = -floor_div(-lo_num, d as i128);
        let ahi: i128 = floor_div(hi_num, d as i128);
        proof {
            assert forall|t: int|
                -0x2000_0000_0000_0000_0000 <= t <= 0x2000_0000_0000_0000_0000 implies (axis_ok(
                o as int,
                d as int,
                mn as int,
                mx as int,
                t,
            ) <==> alo <= t && t <= ahi) by {
                lemma_scale_floor((d as int) * t, mn - o);
                lemma_scale_floor((d as int) * t, mx - o);
                lemma_mul_ge_div(d as int, t, lo_num as int);
                lemma_mul_le_div(d as int, t, hi_num as int);
            }
        }
        Some((alo, ahi))
    } else {
        let dp: i128 = -(d as i128);
        let alo: i128 = -floor_div(hi_num, dp);
        let ahi: i128 = floor_div(-lo_num, dp);
        proof {
            assert forall|t: int|
                -0x2000_0000_0000_0000_0000 <= t <= 0x2000_0000_0000_0000_0000 implies (axis_ok(
                o as int,
                d as int,
                mn as int,
                mx as int,
                t,
            ) <==> alo <= t && t <= ahi) by {
                lemma_scale_floor((d as int) * t, mn - o);
                lemma_scale_floor((d as int) * t, mx - o);
                assert((d as int) * t == -((dp as int) * t)) by (nonlinear_arith)
                    requires
                        dp as int == -(d as int),
                ;
                lemma_mul_ge_div(dp as int, t, (-hi_num) as int);
                lemma_mul_le_div(dp as int, t, (-lo_num) as int);
            }
        }
        Some((alo, ahi))
    }
}

} // verus!
