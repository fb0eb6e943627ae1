//! The camera: an immutable viewport derived once from its configuration,
//! casting rays with lens-disk and shutter-time randomness.

use vstd::prelude::*;

verus! {

use crate::fixed::{fdiv_s, fmul_s, scalar_ok, SCALE};
use crate::interval::Interval;
use crate::ray::{ray_wf, TimeRay3, TRay};
use crate::rng::{rand_between, rand_in_unit_disk};
use crate::vec3::{
    lemma_fmul_s_bound2, v3_add, v3_bounded, v3_cross, v3_div, v3_normalized, v3_scale, v3_sq_len,
    v3_sub, V3, Vec3,
};

/// The camera's configuration: the tangent of half the vertical field of
/// view (a caller converts from degrees, as the tangent itself is beyond
/// integer arithmetic), the width-to-height ratio, the lens aperture and
/// the distance at which rays converge sharply.
#[derive(Copy, Clone, Debug, PartialEq, Eq, Structural)]
pub struct Options {
    pub tan_half_fov: i64,
    pub aspect_ratio: i64,
    pub aperture: i64,
    pub focus_distance: i64,
}

/// Bounds on the camera's configuration that keep every derived scalar
/// inside the ranges the intersection engine accepts.
pub open spec fn camera_inputs_ok(
    position: V3,
    look_at: V3,
    up: V3,
    options: Options,
    time_interval: Interval,
) -> bool {
    &&& v3_bounded(position, 0x4000_0000)
    &&& v3_bounded(look_at, 0x4000_0000)
    &&& v3_bounded(up, 0x4000_0000)
    &&& 0 <= options.tan_half_fov as int <= 0x20_0000
    &&& 0 <= options.aspect_ratio as int <= 0x20_0000
    &&& 0 <= options.aperture as int <= 0x4000_0000
    &&& 0 <= options.focus_distance as int <= 0x4000_0000
    &&& fmul_s(
        options.focus_distance as int,
        fmul_s(options.aspect_ratio as int, 2 * options.tan_half_fov as int),
    ) <= 0x8000_0000
    &&& fmul_s(options.focus_distance as int, 2 * options.tan_half_fov as int) <= 0x8000_0000
    &&& scalar_ok(time_interval.start_s())
    &&& scalar_ok(time_interval.end_s())
}

/// The direction of the ray cast for viewport coordinates `(s, t)` with
/// lens offset `offset`.
pub open spec fn cam_dir_s(
    lower_left_corner: V3,
    horizontal: V3,
    vertical: V3,
    position: V3,
    offset: V3,
    s: int,
    t: int,
) -> V3 {
    v3_sub(
        v3_sub(
            v3_add(v3_add(lower_left_corner, v3_scale(horizontal, s)), v3_scale(vertical, t)),
            position,
        ),
        offset,
    )
}

/// An immutable viewport: a lower-left corner, two scaled edge vectors, an
/// orthonormal basis and a lens radius.
pub struct Camera {
    position: Vec3,
    lower_left_corner: Vec3,
    horizontal: Vec3,
    vertical: Vec3,
    u: Vec3,
    v: Vec3,
    w: Vec3,
    lens_radius: i64,
    time_interval: Interval,
}

impl Camera {
    pub closed spec fn position_s(self) -> V3 {
        self.position@
    }

    pub closed spec fn lower_left_corner_s(self) -> V3 {
        self.lower_left_corner@
    }

    pub closed spec fn horizontal_s(self) -> V3 {
        self.horizontal@
    }

    pub closed spec fn vertical_s(self) -> V3 {
        self.vertical@
    }

    pub closed spec fn u_s(self) -> V3 {
        self.u@
    }

    pub closed spec fn v_s(self) -> V3 {
        self.v@
    }

    pub closed spec fn w_s(self) -> V3 {
        self.w@
    }

    pub closed spec fn lens_radius_s(self) -> int {
        self.lens_radius as int
    }

    pub closed spec fn interval_start_s(self) -> int {
        self.time_interval.start_s()
    }

    pub closed spec fn interval_end_s(self) -> int {
        self.time_interval.end_s()
    }

    /// Stored scalars small enough that every cast ray is well-formed.
    pub open spec fn wf(self) -> bool {
        &&& v3_bounded(self.position_s(), 0x4000_0000)
        &&& v3_bounded(self.lower_left_corner_s(), 0x2_0000_0000)
        &&& v3_bounded(self.horizontal_s(), 0x1_0000_0000)
        &&& v3_bounded(self.vertical_s(), 0x2_0000_0000)
        &&& v3_bounded(self.u_s(), SCALE as int)
        &&& v3_bounded(self.v_s(), 0x30000)
        &&& v3_bounded(self.w_s(), SCALE as int)
        &&& 0 <= self.lens_radius_s() <= 0x4000_0000
        &&& scalar_ok(self.interval_start_s())
        &&& scalar_ok(self.interval_end_s())
    }

    /// Derive the viewport from the configuration.
    pub fn new(
        position: Vec3,
        look_at: Vec3,
        up: Vec3,
        options: Options,
        time_interval: Interval,
    ) -> (r: Camera)
        requires
            camera_inputs_ok(position@, look_at@, up@, options, time_interval),
        ensures
            r.wf(),
            r.position_s() == position@,
            r.w_s() == v3_normalized(v3_sub(position@, look_at@)),
            r.u_s() == v3_normalized(v3_cross(up@, r.w_s())),
            r.v_s() == v3_cross(r.w_s(), r.u_s()),
            r.horizontal_s() == v3_scale(
                r.u_s(),
                fmul_s(
                    options.focus_distance as int,
                    fmul_s(options.aspect_ratio as int, 2 * options.tan_half_fov as int),
                ),
            ),
            r.vertical_s() == v3_scale(
                r.v_s(),
                fmul_s(options.focus_distance as int, 2 * options.tan_half_fov as int),
            ),
            r.lower_left_corner_s() == v3_sub(
                v3_sub(
                    v3_sub(position@, v3_div(r.horizontal_s(), 2 * SCALE)),
                    v3_div(r.vertical_s(), 2 * SCALE),
                ),
                v3_scale(r.w_s(), options.focus_distance as int),
            ),
            r.lens_radius_s() == fdiv_s(options.aperture as int, 2 * SCALE),
            r.interval_start_s() == time_interval.start_s(),
            r.interval_end_s() == time_interval.end_s(),
    {
        let viewport_height: i64 = 2 * options.tan_half_fov;
        proof {
            lemma_fmul_s_bound2(options.aspect_ratio as int, viewport_height as int, 0x20_0000,
                0x40_0000);
        }
        let viewport_width: i64 = crate::fixed::fmul(options.aspect_ratio, viewport_height);
        let w = position.minus(look_at).normalized();
        proof {
            lemma_fmul_s_bound2(up@.y, w@.z, 0x4000_0000, 65536);
            lemma_fmul_s_bound2(up@.z, w@.y, 0x4000_0000, 65536);
            lemma_fmul_s_bound2(up@.z, w@.x, 0x4000_0000, 65536);
            lemma_fmul_s_bound2(up@.x, w@.z, 0x4000_0000, 65536);
            lemma_fmul_s_bound2(up@.x, w@.y, 0x4000_0000, 65536);
            lemma_fmul_s_bound2(up@.y, w@.x, 0x4000_0000, 65536);
        }
        let u = up.cross(w).normalized();
        proof {
            lemma_fmul_s_bound2(w@.y, u@.z, 65536, 65536);
            lemma_fmul_s_bound2(w@.z, u@.y, 65536, 65536);
            lemma_fmul_s_bound2(w@.z, u@.x, 65536, 65536);
            lemma_fmul_s_bound2(w@.x, u@.z, 65536, 65536);
            lemma_fmul_s_bound2(w@.x, u@.y, 65536, 65536);
            lemma_fmul_s_bound2(w@.y, u@.x, 65536, 65536);
        }
        let v = w.cross(u);
        proof {
            assert(options.aspect_ratio as int * viewport_height as int >= 0) by (nonlinear_arith)
                requires
                    options.aspect_ratio as int >= 0,
                    viewport_height as int >= 0,
            ;
            crate::fixed::lemma_div_bounds(
                options.aspect_ratio as int * viewport_height as int,
                SCALE as int,
            );
            lemma_fmul_s_bound2(options.focus_distance as int, viewport_width as int, 0x4000_0000,
                0x1000_0001);
            assert(options.focus_distance as int * viewport_width as int >= 0) by (nonlinear_arith)
                requires
                    options.focus_distance as int >= 0,
                    viewport_width as int >= 0,
            ;
            crate::fixed::lemma_div_bounds(
                options.focus_distance as int * viewport_width as int,
                SCALE as int,
            );
            assert(options.focus_distance as int * viewport_height as int >= 0)
                by (nonlinear_arith)
                requires
                    options.focus_distance as int >= 0,
                    viewport_height as int >= 0,
            ;
            crate::fixed::lemma_div_bounds(
                options.focus_distance as int * viewport_height as int,
                SCALE as int,
            );
        }
        let hscale: i64 = crate::fixed::fmul(options.focus_distance, viewport_width);
        let vscale: i64 = crate::fixed::fmul(options.focus_distance, viewport_height);
        proof {
            lemma_fmul_s_bound2(u@.x, hscale as int, 65536, 0x8000_0000);
            lemma_fmul_s_bound2(u@.y, hscale as int, 65536, 0x8000_0000);
            lemma_fmul_s_bound2(u@.z, hscale as int, 65536, 0x8000_0000);
            lemma_fmul_s_bound2(v@.x, vscale as int, 0x30000, 0x8000_0000);
            lemma_fmul_s_bound2(v@.y, vscale as int, 0x30000, 0x8000_0000);
            lemma_fmul_s_bound2(v@.z, vscale as int, 0x30000, 0x8000_0000);
        }
        let horizontal = u.scale(hscale);
        let vertical = v.scale(vscale);
        proof {
            lemma_fmul_s_bound2(w@.x, options.focus_distance as int, 65536, 0x4000_0000);
            lemma_fmul_s_bound2(w@.y, options.focus_distance as int, 65536, 0x4000_0000);
            lemma_fmul_s_bound2(w@.z, options.focus_distance as int, 65536, 0x4000_0000);
            crate::fixed::lemma_div_bounds(horizontal@.x * 65536, 2 * SCALE as int);
            crate::fixed::lemma_div_bounds(horizontal@.y * 65536, 2 * SCALE as int);
            crate::fixed::lemma_div_bounds(horizontal@.z * 65536, 2 * SCALE as int);
            crate::fixed::lemma_div_bounds(vertical@.x * 65536, 2 * SCALE as int);
            crate::fixed::lemma_div_bounds(vertical@.y * 65536, 2 * SCALE as int);
            crate::fixed::lemma_div_bounds(vertical@.z * 65536, 2 * SCALE as int);
        }
        let half_h = horizontal.div_by(2 * SCALE);
        let half_v = vertical.div_by(2 * SCALE);
        let focus_w = w.scale(options.focus_distance);
        let lower_left_corner = position.minus(half_h).minus(half_v).minus(focus_w);
        proof {
            crate::fixed::lemma_div_bounds(options.aperture as int * 65536, 2 * SCALE as int);
        }
        let lens_radius = crate::fixed::fdiv(options.aperture, 2 * SCALE);
        Camera {
            position,
            lower_left_corner,
            horizontal,
            vertical,
            u,
            v,
            w,
            lens_radius,
            time_interval,
        }
    }

    /// What every cast ray looks like for viewport coordinates `(s, t)`:
    /// the shutter instant lies in the camera's span, and for some lens-disk
    /// sample the origin is the position pushed by the lens offset and the
    /// direction aims at the viewport point from that origin.
    pub open spec fn cam_ray_ok(self, r: TRay, s: int, t: int) -> bool {
        &&& (self.interval_start_s() < self.interval_end_s() ==> self.interval_start_s() <= r.time
            < self.interval_end_s())
        &&& (self.interval_start_s() >= self.interval_end_s() ==> r.time
            == self.interval_start_s())
        &&& exists|d: V3|
            {
                let rd = v3_scale(d, self.lens_radius_s());
                let offset = v3_add(v3_scale(self.u_s(), rd.x), v3_scale(self.v_s(), rd.y));
                &&& #[trigger] v3_bounded(d, SCALE as int)
                &&& d.z == 0
                &&& v3_sq_len(d) < SCALE as int
                &&& r.origin == v3_add(self.position_s(), offset)
                &&& r.direction == cam_dir_s(
                    self.lower_left_corner_s(),
                    self.horizontal_s(),
                    self.vertical_s(),
                    self.position_s(),
                    offset,
                    s,
                    t,
                )
            }
    }

    /// Cast the ray for viewport coordinates `(s, t)`: the origin is
    /// jittered across the lens disk and the time is drawn from the shutter
    /// span.
    pub fn ray(&self, s: i64, t: i64) -> (r: TimeRay3)
        requires
            self.wf(),
            0 <= s as int <= SCALE as int,
            0 <= t as int <= SCALE as int,
        ensures
            ray_wf(r@),
            self.cam_ray_ok(r@, s as int, t as int),
            self.lens_radius_s() == 0 ==> r@.origin == self.position_s() && r@.direction
                == cam_dir_s(
                self.lower_left_corner_s(),
                self.horizontal_s(),
                self.vertical_s(),
                self.position_s(),
                V3 { x: 0, y: 0, z: 0 },
                s as int,
                t as int,
            ),
    {
        let disk = rand_in_unit_disk();
        proof {
            lemma_fmul_s_bound2(disk@.x, self.lens_radius_s(), 65536, 0x4000_0000);
            lemma_fmul_s_bound2(disk@.y, self.lens_radius_s(), 65536, 0x4000_0000);
            lemma_fmul_s_bound2(disk@.z, self.lens_radius_s(), 65536, 0x4000_0000);
        }
        let rd = disk.scale(self.lens_radius);
        proof {
            lemma_fmul_s_bound2(self.u_s().x, rd@.x, 65536, 0x8000_0000);
            lemma_fmul_s_bound2(self.u_s().y, rd@.x, 65536, 0x8000_0000);
            lemma_fmul_s_bound2(self.u_s().z, rd@.x, 65536, 0x8000_0000);
            lemma_fmul_s_bound2(self.v_s().x, rd@.y, 0x30000, 0x8000_0000);
            lemma_fmul_s_bound2(self.v_s().y, rd@.y, 0x30000, 0x8000_0000);
            lemma_fmul_s_bound2(self.v_s().z, rd@.y, 0x30000, 0x8000_0000);
        }
        let offset = self.u.scale(rd.x()).plus(self.v.scale(rd.y()));
        let origin = self.position.plus(offset);
        proof {
            lemma_fmul_s_bound2(self.horizontal_s().x, s as int, 0x1_0000_0000, 65536);
            lemma_fmul_s_bound2(self.horizontal_s().y, s as int, 0x1_0000_0000, 65536);
            lemma_fmul_s_bound2(self.horizontal_s().z, s as int, 0x1_0000_0000, 65536);
            lemma_fmul_s_bound2(self.vertical_s().x, t as int, 0x2_0000_0000, 65536);
            lemma_fmul_s_bound2(self.vertical_s().y, t as int, 0x2_0000_0000, 65536);
            lemma_fmul_s_bound2(self.vertical_s().z, t as int, 0x2_0000_0000, 65536);
        }
        let sh = self.horizontal.scale(s);
        let tv = self.vertical.scale(t);
        let direction = self.lower_left_corner.plus(sh).plus(tv).minus(self.position).minus(
            offset,
        );
        let i0 = self.time_interval.start();
        let i1 = self.time_interval.end();
        let time: i64 = if i0 < i1 {
            rand_between(i0, i1)
        } else {
            i0
        };
        let r = TimeRay3::new(origin, direction, time);
        proof {
            let d = disk@;
            let rdg = v3_scale(d, self.lens_radius_s());
            let offsetg = v3_add(v3_scale(self.u_s(), rdg.x), v3_scale(self.v_s(), rdg.y));
            assert(v3_bounded(d, SCALE as int) && d.z == 0 && v3_sq_len(d) < SCALE as int && r@.origin
                == v3_add(self.position_s(), offsetg) && r@.direction == cam_dir_s(
                self.lower_left_corner_s(),
                self.horizontal_s(),
                self.vertical_s(),
                self.position_s(),
                offsetg,
                s as int,
                t as int,
            ));
            if self.lens_radius_s() == 0 {
                assert(rdg.x == 0 && rdg.y == 0) by {
                    assert(d.x * 0 == 0 && d.y * 0 == 0) by (nonlinear_arith);
                }
                assert(offsetg.x == 0 && offsetg.y == 0 && offsetg.z == 0) by {
                    assert(self.u_s().x * 0 == 0 && self.u_s().y * 0 == 0 && self.u_s().z * 0 == 0
                        && self.v_s().x * 0 == 0 && self.v_s().y * 0 == 0 && self.v_s().z * 0 == 0)
                        by (nonlinear_arith);
                }
                assert(offsetg == (V3 { x: 0, y: 0, z: 0 }));
            }
        }
        r
    }
}

} // verus!
