//! The path integrator: the recursive colour-accumulation function and the
//! per-pixel Monte-Carlo sampling driver.

use vstd::prelude::*;

verus! {

use crate::camera::Camera;
use crate::color::Color;
use crate::fixed::{clamp_s, fdiv_s, fmul_s, lemma_div_bounds, SCALE, VMAX};
use crate::hit::{closest_hit, lemma_closest_characterization, obj_material, HitList, Object};
use crate::material::{mat_wf, scatter_post, Material, ScatterRecord};
use crate::ray::{ray_wf, TimeRay3, TRay};
use crate::texture::color_in_range;
use crate::vec3::{v3_hadamard, v3_normalized, V3, Vec3};

/// The window the integrator searches: hits nearer than `T_EPS` (about a
/// thousandth of a unit, against self-intersection at the originating
/// surface) are ignored, and `T_FAR` stands in for an unbounded far end.
pub const T_EPS: i64 = 66;

pub const T_FAR: i64 = 0x7fff_ffff_ffff_ffff;

/// Every material of the scene is well-formed.
pub open spec fn scene_materials_wf(s: &HitList) -> bool {
    forall|i: int| 0 <= i < s.objects_s().len() ==> mat_wf(
        obj_material(#[trigger] s.objects_s()[i]),
    )
}

/// The sky gradient a missed ray returns: white blended toward the sky
/// blue of channels one half, seven tenths and one (on the fixed-point
/// grid) by the unit direction's height.
pub open spec fn sky_color_s(direction: V3) -> V3 {
    let unit = v3_normalized(direction);
    let t = (unit.y + (SCALE as int)) / 2;
    V3 {
        x: fmul_s(SCALE as int, (SCALE as int) - t) + fmul_s(32768, t),
        y: fmul_s(SCALE as int, (SCALE as int) - t) + fmul_s(45875, t),
        z: fmul_s(SCALE as int, (SCALE as int) - t) + fmul_s(SCALE as int, t),
    }
}

/// What one integrated path sample satisfies for its ray: channels within
/// the unit range always; black once the bounce budget is spent; the sky
/// gradient on a miss; and on a hit either black (an absorbed or
/// unrepresentable scatter) or the struck material's attenuation times a
/// colour that is itself a valid sample, one bounce shallower, of the
/// scattered ray the record carries.
pub open spec fn path_sample_ok(objs: Seq<Object>, ray: TRay, c: V3, depth: int) -> bool
    decreases
            (if depth >= 0 {
                depth
            } else {
                0int
            }),
{
    &&& color_in_range(c)
    &&& (depth <= 0 ==> c == (V3 { x: 0, y: 0, z: 0 }))
    &&& (depth > 0 ==> match closest_hit(objs, ray, T_EPS as int, T_FAR as int) {
        None => c == sky_color_s(ray.direction),
        Some(mh) => c == (V3 { x: 0, y: 0, z: 0 }) || exists|sr: ScatterRecord, rc: V3|
            scatter_post(mh.material, ray, mh.hit, Some(sr)) && path_sample_ok(
                objs,
                sr@.ray,
                rc,
                depth - 1,
            ) && c == (#[trigger] v3_hadamard(sr@.attenuation, rc)),
    })
}

/// A viewport coordinate drawn for one pixel index: the index jittered by
/// a uniform sub-pixel offset, normalized by the extent and clamped into
/// the unit range.
pub open spec fn pixel_coord_ok(index: int, extent: int, s: int) -> bool {
    exists|j: int|
        0 <= j < SCALE as int && s == clamp_s(
            #[trigger] fdiv_s(index * (SCALE as int) + j, (extent - 1) * (SCALE as int)),
            0,
            SCALE as int,
        )
}

/// A sample ray of the pixel at `(column, line)`: cast by the camera for
/// viewport coordinates jittered inside that pixel's cell.
pub open spec fn camera_sample_ok(
    cam: Camera,
    column: int,
    line: int,
    width: int,
    height: int,
    r: TRay,
) -> bool {
    exists|ss: int, tt: int|
        #![auto]
        {
            &&& 0 <= ss <= SCALE as int
            &&& 0 <= tt <= SCALE as int
            &&& pixel_coord_ok(column, width, ss)
            &&& pixel_coord_ok(line, height, tt)
            &&& cam.cam_ray_ok(r, ss, tt)
        }
}

/// The componentwise total of a row of sample colours.
pub open spec fn color_sum(cs: Seq<V3>) -> V3
    decreases cs.len(),
{
    if cs.len() == 0 {
        V3 { x: 0, y: 0, z: 0 }
    } else {
        let p = color_sum(cs.drop_last());
        let l = cs.last();
        V3 { x: p.x + l.x, y: p.y + l.y, z: p.z + l.z }
    }
}

/// The sky gradient's blue channel is always at full intensity.
pub proof fn lemma_sky_blue_full(direction: V3)
    ensures
        sky_color_s(direction).z == SCALE as int,
{
    let unit = v3_normalized(direction);
    let t = (unit.y + (SCALE as int)) / 2;
    assert(-(SCALE as int) <= unit.y <= SCALE as int);
    assert(0 <= t <= SCALE as int);
    assert(fmul_s(SCALE as int, (SCALE as int) - t) == (SCALE as int) - t) by {
        assert(65536 * (65536 - t) == (65536 - t) * 65536) by (nonlinear_arith);
        vstd::arithmetic::div_mod::lemma_div_multiples_vanish(65536 - t, 65536);
    }
    assert(fmul_s(SCALE as int, t) == t) by {
        assert(65536 * t == t * 65536) by (nonlinear_arith);
        vstd::arithmetic::div_mod::lemma_div_multiples_vanish(t, 65536);
    }
}

/// Attenuation never brightens: a channel at most one, applied to a
/// non-negative channel, yields a value between zero and the input.
pub proof fn lemma_energy_conservation(attenuation: V3, c: V3)
    requires
        color_in_range(attenuation),
        c.x >= 0,
        c.y >= 0,
        c.z >= 0,
    ensures
        0 <= v3_hadamard(attenuation, c).x <= c.x,
        0 <= v3_hadamard(attenuation, c).y <= c.y,
        0 <= v3_hadamard(attenuation, c).z <= c.z,
{
    lemma_attenuate(attenuation.x, c.x);
    lemma_attenuate(attenuation.y, c.y);
    lemma_attenuate(attenuation.z, c.z);
}

/// One channel of the componentwise product stays within the input.
proof fn lemma_attenuate(a: int, c: int)
    requires
        0 <= a <= SCALE as int,
        0 <= c,
    ensures
        0 <= fmul_s(a, c) <= c,
{
    assert(0 <= a * c <= 65536 * c) by (nonlinear_arith)
        requires
            0 <= a <= 65536,
            0 <= c,
    ;
    lemma_div_bounds(a * c, SCALE as int);
    vstd::arithmetic::div_mod::lemma_div_is_ordered(a * c, 65536 * c, SCALE as int);
    vstd::arithmetic::div_mod::lemma_div_multiples_vanish(c, 65536);
}

/// Whether a ray's scalars are small enough for the intersection engine.
fn ray_in_bounds(ray: &TimeRay3) -> (r: bool)
    ensures
        r == ray_wf(ray@),
{
    let o = ray.origin();
    let d = ray.direction();
    let t = ray.time();
    o.0 >= -VMAX && o.0 <= VMAX && o.1 >= -VMAX && o.1 <= VMAX && o.2 >= -VMAX && o.2 <= VMAX
        && d.0 >= -VMAX && d.0 <= VMAX && d.1 >= -VMAX && d.1 <= VMAX && d.2 >= -VMAX && d.2
        <= VMAX && t >= -VMAX && t <= VMAX
}

/// The colour a sky-bound ray contributes.
fn sky_color(ray: &TimeRay3) -> (r: Color)
    requires
        ray_wf(ray@),
    ensures
        r@ == sky_color_s(ray@.direction),
        color_in_range(r@),
{
    let unit: Vec3 = ray.direction().normalized();
    let ty: i64 = unit.y() + SCALE;
    let t: i64 = ((ty as u64) / 2) as i64;
    proof {
        assert(t as int == (unit@.y + (SCALE as int)) / 2);
        assert(0 <= t as int <= SCALE as int);
        lemma_attenuate(t as int, 65536);
        lemma_white_blend(t as int, 32768);
        lemma_white_blend(t as int, 45875);
        lemma_white_blend(t as int, 65536);
    }
    let white_part: i64 = crate::fixed::fmul(SCALE, SCALE - t);
    let bx: i64 = white_part + crate::fixed::fmul(32768, t);
    let by: i64 = white_part + crate::fixed::fmul(45875, t);
    let bz: i64 = white_part + crate::fixed::fmul(SCALE, t);
    Vec3(bx, by, bz)
}

/// Blending toward a channel at most one keeps the result within one.
proof fn lemma_white_blend(t: int, blue: int)
    requires
        0 <= t <= SCALE as int,
        0 <= blue <= SCALE as int,
    ensures
        0 <= fmul_s(SCALE as int, (SCALE as int) - t) + fmul_s(blue, t) <= SCALE as int,
{
    assert(65536 * (65536 - t) == (65536 - t) * 65536) by (nonlinear_arith);
    vstd::arithmetic::div_mod::lemma_div_multiples_vanish(65536 - t, 65536);
    lemma_attenuate(blue, t);
}

/// The colour carried back along one sampled path: black once the bounce
/// budget is spent, the sky on a miss, and otherwise the scattered colour
/// attenuated by the struck material.  A scattered ray or hit record whose
/// scalars leave the representable range is treated as absorbed.
pub fn ray_color(ray: TimeRay3, world: &HitList, depth: i32) -> (r: Color)
    requires
        world.wf(),
        scene_materials_wf(world),
        ray_wf(ray@),
    ensures
        path_sample_ok(world.objects_s(), ray@, r@, depth as int),
    decreases
            (if depth >= 0 {
                depth as int
            } else {
                0int
            }),
{
    if depth <= 0 {
        return Vec3(0, 0, 0);
    }
    match world.hit(ray, T_EPS, T_FAR) {
        Some(material_hit) => {
            let hit = material_hit.hit();
            let n = material_hit.normal();
            if n.0 < -2 * SCALE || n.0 > 2 * SCALE || n.1 < -2 * SCALE || n.1 > 2 * SCALE || n.2
                < -2 * SCALE || n.2 > 2 * SCALE {
                return Vec3(0, 0, 0);
            }
            let material = material_hit.material();
            proof {
                lemma_closest_characterization(
                    world.objects_s(),
                    ray@,
                    T_EPS as int,
                    T_FAR as int,
                );
                let objs = world.objects_s();
                let k = choose|k: int|
                    0 <= k < objs.len() && #[trigger] crate::hit::obj_first_t(
                        objs[k],
                        ray@,
                        T_EPS as int,
                        T_FAR as int,
                    ) == Some(material_hit@.hit.t) && material_hit@ == crate::hit::obj_hit_rec(
                        objs[k],
                        ray@,
                        material_hit@.hit.t,
                    );
                assert(mat_wf(obj_material(objs[k])));
                assert(mat_wf(material));
            }
            let scatter_record = material.scatter(ray, hit);
            match scatter_record {
                Some(scr) => {
                    if !ray_in_bounds(&scr.ray) {
                        return Vec3(0, 0, 0);
                    }
                    let rec_color = ray_color(scr.ray, world, depth - 1);
                    let attenuation = scr.attenuation;
                    proof {
                        assert(color_in_range(attenuation@)) by {
                            match material {
                                Material::Lambertian(_) => {},
                                Material::Metal(_) => {},
                                Material::Dielectric(_) => {},
                            }
                        }
                        lemma_energy_conservation(attenuation@, rec_color@);
                        assert(scatter_post(
                            material_hit@.material,
                            ray@,
                            material_hit@.hit,
                            Some(scr),
                        ) && color_in_range(rec_color@) && v3_hadamard(scr@.attenuation, rec_color@)
                            == v3_hadamard(attenuation@, rec_color@));
                    }
                    attenuation.hadamard(rec_color)
                },
                None => Vec3(0, 0, 0),
            }
        },
        None => sky_color(&ray),
    }
}

/// Accumulate `samples_per_pixel` independent path samples for the pixel at
/// `(column, line)`: each sample jitters the pixel coordinate, asks the
/// camera for a ray, and integrates its colour.  The accumulated channels
/// stay between zero and `samples_per_pixel` full intensities.
pub fn render_pixel(
    camera: &Camera,
    world: &HitList,
    column: i32,
    line: i32,
    image_width: i32,
    image_height: i32,
    samples_per_pixel: i32,
    max_depth: i32,
) -> (r: Color)
    requires
        camera.wf(),
        world.wf(),
        scene_materials_wf(world),
        2 <= image_width,
        2 <= image_height,
        0 <= column < image_width,
        0 <= line < image_height,
        1 <= samples_per_pixel <= 0x10000,
    ensures
        0 <= r@.x <= samples_per_pixel as int * (SCALE as int),
        0 <= r@.y <= samples_per_pixel as int * (SCALE as int),
        0 <= r@.z <= samples_per_pixel as int * (SCALE as int),
        exists|rays: Seq<TRay>, cs: Seq<V3>|
            #![auto]
            {
                &&& rays.len() == samples_per_pixel as int
                &&& cs.len() == samples_per_pixel as int
                &&& (forall|i: int| 0 <= i < cs.len() ==> ray_wf(#[trigger] rays[i])
                    && camera_sample_ok(
                    *camera,
                    column as int,
                    line as int,
                    image_width as int,
                    image_height as int,
                    rays[i],
                ) && path_sample_ok(world.objects_s(), rays[i], cs[i], max_depth as int))
                &&& r@ == color_sum(cs)
            },
        world.objects_s().len() == 0 && max_depth > 0 ==> r@.z == samples_per_pixel as int * (
        SCALE as int),
{
    let mut acc = Vec3(0, 0, 0);
    let mut sample: i32 = 0;
    let ghost mut rays: Seq<TRay> = Seq::empty();
    let ghost mut cs: Seq<V3> = Seq::empty();
    while sample < samples_per_pixel
        invariant
            0 <= sample <= samples_per_pixel,
            1 <= samples_per_pixel <= 0x10000,
            camera.wf(),
            world.wf(),
            scene_materials_wf(world),
            2 <= image_width,
            2 <= image_height,
            0 <= column < image_width,
            0 <= line < image_height,
            0 <= acc@.x <= sample as int * (SCALE as int),
            0 <= acc@.y <= sample as int * (SCALE as int),
            0 <= acc@.z <= sample as int * (SCALE as int),
            rays.len() == sample as int,
            cs.len() == sample as int,
            forall|i: int| 0 <= i < cs.len() ==> ray_wf(#[trigger] rays[i]) && camera_sample_ok(
                *camera,
                column as int,
                line as int,
                image_width as int,
                image_height as int,
                rays[i],
            ) && path_sample_ok(world.objects_s(), rays[i], cs[i], max_depth as int),
            acc@ == color_sum(cs),
            world.objects_s().len() == 0 && max_depth > 0 ==> acc@.z == sample as int * (
            SCALE as int),
        decreases samples_per_pixel - sample,
    {
        let u = pixel_coordinate(column, image_width);
        let v = pixel_coordinate(line, image_height);
        let ray = camera.ray(u, v);
        let c = ray_color(ray, world, max_depth);
        proof {
            assert(sample as int * 65536 + 65536 == (sample as int + 1) * 65536) by (nonlinear_arith);
            assert(samples_per_pixel as int * 65536 <= 0x10000 * 65536) by (nonlinear_arith)
                requires
                    samples_per_pixel as int <= 0x10000,
            ;
            assert((sample as int + 1) * 65536 <= samples_per_pixel as int * 65536)
                by (nonlinear_arith)
                requires
                    sample as int + 1 <= samples_per_pixel as int,
            ;
            if world.objects_s().len() == 0 && max_depth > 0 {
                lemma_sky_blue_full(ray@.direction);
                assert(c@.z == SCALE as int);
            }
            assert(camera_sample_ok(
                *camera,
                column as int,
                line as int,
                image_width as int,
                image_height as int,
                ray@,
            )) by {
                assert(0 <= u as int <= SCALE as int && 0 <= v as int <= SCALE as int
                    && pixel_coord_ok(column as int, image_width as int, u as int)
                    && pixel_coord_ok(line as int, image_height as int, v as int)
                    && camera.cam_ray_ok(ray@, u as int, v as int));
            }
            let ghost prev_cs = cs;
            let ghost prev_rays = rays;
            rays = rays.push(ray@);
            cs = cs.push(c@);
            assert(cs.drop_last() =~= prev_cs);
            assert(cs.last() == c@);
            assert forall|i: int| 0 <= i < cs.len() implies ray_wf(#[trigger] rays[i])
                && camera_sample_ok(
                *camera,
                column as int,
                line as int,
                image_width as int,
                image_height as int,
                rays[i],
            ) && path_sample_ok(world.objects_s(), rays[i], cs[i], max_depth as int) by {
                if i < prev_cs.len() {
                    assert(rays[i] == prev_rays[i] && cs[i] == prev_cs[i]);
                } else {
                    assert(rays[i] == ray@ && cs[i] == c@);
                }
            }
        }
        acc = acc.plus(c);
        sample = sample + 1;
    }
    acc
}

/// The jittered viewport coordinate of one pixel index, clamped into the
/// unit range.
fn pixel_coordinate(index: i32, extent: i32) -> (r: i64)
    requires
        2 <= extent,
        0 <= index < extent,
    ensures
        0 <= r as int <= SCALE as int,
        pixel_coord_ok(index as int, extent as int, r as int),
{
    let jitter: i64 = crate::rng::rand();
    let jittered: i64 = (index as i64) * SCALE + jitter;
    proof {
        assert((jittered as int) * 65536 >= 0 && (extent as int - 1) * 65536 >= 65536
            && (jittered as int) * 65536 == 65536 * (jittered as int)) by (nonlinear_arith)
            requires
                jittered as int >= 0,
                extent as int >= 2,
        ;
        lemma_div_bounds((jittered as int) * 65536, (extent as int - 1) * 65536);
        vstd::arithmetic::div_mod::lemma_div_is_ordered_by_denominator(
            (jittered as int) * 65536,
            65536,
            (extent as int - 1) * 65536,
        );
        vstd::arithmetic::div_mod::lemma_div_multiples_vanish(jittered as int, 65536);
    }
    let raw: i64 = crate::fixed::fdiv(jittered, (extent as i64 - 1) * SCALE);
    let r = crate::fixed::clamp(raw, 0, SCALE);
    proof {
        assert(0 <= jitter && jitter < SCALE && r as int == clamp_s(
            fdiv_s((index as int) * (SCALE as int) + jitter as int, (extent as int - 1) * (
            SCALE as int)),
            0,
            SCALE as int,
        ));
    }
    r
}

} // verus!
