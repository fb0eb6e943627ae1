//! Random sampling: one trusted draw from the thread-local generator, and
//! verified rejection samplers built on it.

use vstd::prelude::*;

verus! {

use crate::fixed::SCALE;
use crate::vec3::{v3_bounded, v3_normalized, v3_sq_len, V3, Vec3};

/// Relies on rand::random_range over `min..max`: a draw from the
/// thread-local generator, uniform over the half-open range; it panics only
/// on an empty range, which the precondition rules out.
#[verifier::external_body]
pub fn rand_between(min: i64, max: i64) -> (r: i64)
    requires
        min < max,
    ensures
        min <= r < max,
{
    rand::random_range(min..max)
}

/// A draw in `[0, 1)`, as a fixed-point scalar.
pub fn rand() -> (r: i64)
    ensures
        0 <= r < SCALE,
{
    rand_between(0, SCALE)
}

/// What `rand_unit_vector` guarantees of its result: the clamped unit
/// direction of some nonzero vector of the unit cube.
pub open spec fn is_unit_dir(u: V3) -> bool {
    &&& v3_bounded(u, SCALE as int)
    &&& exists|p: V3| v3_bounded(p, SCALE as int) && v3_sq_len(p) > 0 && u == v3_normalized(p)
}

/// A random direction of unit length: a rejection-sampled point of the unit
/// ball's outer shell, normalized.  After too many rejected draws a fixed
/// unit vector is returned so that the sampler always terminates.
pub fn rand_unit_vector() -> (r: Vec3)
    ensures
        is_unit_dir(r@),
        v3_bounded(r@, SCALE as int),
{
    let mut attempts: u32 = 64;
    while attempts > 0
        decreases attempts,
    {
        let p = Vec3(
            rand_between(-SCALE, SCALE + 1),
            rand_between(-SCALE, SCALE + 1),
            rand_between(-SCALE, SCALE + 1),
        );
        proof {
            crate::vec3::lemma_v3_dot_bound(p@, p@, 65536);
        }
        let sq = p.sq_length();
        if SCALE / 4 <= sq && sq <= SCALE {
            let u = p.normalized();
            proof {
                assert(v3_bounded(p@, SCALE as int) && v3_sq_len(p@) > 0 && u@ == v3_normalized(
                    p@,
                ));
            }
            return u;
        }
        attempts = attempts - 1;
    }
    let fallback = Vec3(SCALE, 0, 0);
    let u = fallback.normalized();
    proof {
        assert(v3_bounded(fallback@, SCALE as int) && v3_sq_len(fallback@) > 0 && u@
            == v3_normalized(fallback@));
    }
    u
}

/// A random unit direction on the same side of the surface as `normal`:
/// a unit sample, negated when it points away from the normal.
pub fn rand_in_hemisphere(normal: Vec3) -> (r: Vec3)
    ensures
        v3_bounded(r@, SCALE as int),
        exists|u: V3|
            #[trigger] is_unit_dir(u) && if crate::vec3::v3_dot(u, normal@) > 0 {
                r@ == u
            } else {
                r@ == crate::vec3::v3_neg(u)
            },
{
    let unit_in_sphere = rand_unit_vector();
    let d: i128 = unit_in_sphere.dot_wide(&normal);
    let r = if d > 0 {
        unit_in_sphere
    } else {
        unit_in_sphere.negate()
    };
    proof {
        assert(is_unit_dir(unit_in_sphere@) && if crate::vec3::v3_dot(unit_in_sphere@, normal@)
            > 0 {
            r@ == unit_in_sphere@
        } else {
            r@ == crate::vec3::v3_neg(unit_in_sphere@)
        });
    }
    r
}

/// A random point of the unit disk in the `z = 0` plane.  After too many
/// rejected draws the disk's centre is returned.
pub fn rand_in_unit_disk() -> (r: Vec3)
    ensures
        r@.z == 0,
        v3_bounded(r@, SCALE as int),
        v3_sq_len(r@) < SCALE,
{
    let mut attempts: u32 = 64;
    while attempts > 0
        decreases attempts,
    {
        let p = Vec3(rand_between(-SCALE, SCALE + 1), rand_between(-SCALE, SCALE + 1), 0);
        proof {
            crate::vec3::lemma_v3_dot_bound(p@, p@, 65536);
        }
        let sq = p.sq_length();
        if sq < SCALE {
            return p;
        }
        attempts = attempts - 1;
    }
    proof {
        crate::vec3::lemma_v3_sq_len_nonneg(V3 { x: 0, y: 0, z: 0 });
    }
    Vec3(0, 0, 0)
}

impl Vec3 {
    /// A vector with three independent draws from `[0, 1)`.
    pub fn rand() -> (r: Vec3)
        ensures
            0 <= r@.x < SCALE,
            0 <= r@.y < SCALE,
            0 <= r@.z < SCALE,
    {
        Vec3(rand(), rand(), rand())
    }

    /// A vector with three independent draws from `[min, max)`.
    pub fn rand_between(min: i64, max: i64) -> (r: Vec3)
        requires
            min < max,
        ensures
            min <= r@.x < max,
            min <= r@.y < max,
            min <= r@.z < max,
    {
        Vec3(rand_between(min, max), rand_between(min, max), rand_between(min, max))
    }
}

} // verus!
