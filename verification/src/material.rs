//! The material scattering model: diffuse, metallic and dielectric
//! behaviours, each consuming a hit and producing an outgoing ray with an
//! attenuation colour (or absorbing the ray).

use vstd::prelude::*;

verus! {

use crate::color::Color;
use crate::fixed::{clamp_s, fdiv_s, fmul_s, isqrt_s, lemma_div_bounds, SCALE};
use crate::hitrecord::{BasicHitRecord, HitRecS};
use crate::ray::{TimeRay3, TRay};
use crate::rng::{is_unit_dir, rand, rand_unit_vector};
use crate::texture::{color_in_range, texture_in_range, texture_value_s, SolidColor, Texture};
use crate::vec3::{
    lemma_fmul_s_bound2, v3_add, v3_bounded, v3_dot, v3_neg, v3_normalized, v3_reflect,
    v3_refract, v3_scale, V3, Vec3,
};

/// Mathematical model of a scatter record.
pub struct ScatRecS {
    pub attenuation: V3,
    pub ray: TRay,
}

/// What a material hands back when it scatters a ray.
pub struct ScatterRecord {
    pub attenuation: Color,
    pub ray: TimeRay3,
}

impl View for ScatterRecord {
    type V = ScatRecS;

    open spec fn view(&self) -> ScatRecS {
        ScatRecS { attenuation: self.attenuation@, ray: self.ray@ }
    }
}

/// The Schlick reflectance approximation: `r0 + (1 - r0)(1 - cosine)^5`
/// with `r0 = ((1 - n)/(1 + n))^2`, in fixed-point scalars.
pub open spec fn schlick_s(cosine: int, refractive_index: int) -> int {
    let sq_r0 = fdiv_s((SCALE as int) - refractive_index, (SCALE as int) + refractive_index);
    let r0 = fmul_s(sq_r0, sq_r0);
    let p1 = (SCALE as int) - cosine;
    let p2 = fmul_s(p1, p1);
    let p4 = fmul_s(p2, p2);
    let p5 = fmul_s(p4, p1);
    r0 + fmul_s((SCALE as int) - r0, p5)
}

/// Probability that a dielectric interface reflects, by the Schlick
/// approximation.
pub fn schlick(cosine: i64, refractive_index: i64) -> (r: i64)
    requires
        -(SCALE as int) <= cosine as int <= SCALE as int,
        0 <= refractive_index as int <= 0x100_0000_0000,
    ensures
        r as int == schlick_s(cosine as int, refractive_index as int),
        0 <= r,
{
    proof {
        lemma_schlick_bounds(cosine as int, refractive_index as int);
    }
    let sq_r0 = crate::fixed::fdiv(SCALE - refractive_index, SCALE + refractive_index);
    let r0 = crate::fixed::fmul(sq_r0, sq_r0);
    let p1 = SCALE - cosine;
    let p2 = crate::fixed::fmul(p1, p1);
    let p4 = crate::fixed::fmul(p2, p2);
    let p5 = crate::fixed::fmul(p4, p1);
    r0 + crate::fixed::fmul(SCALE - r0, p5)
}

/// Bounds of every intermediate of `schlick_s`, so that the computation
/// stays inside `i64`.
proof fn lemma_schlick_bounds(cosine: int, n: int)
    requires
        -(SCALE as int) <= cosine <= SCALE as int,
        0 <= n,
    ensures
        ({
            let s = SCALE as int;
            let sq_r0 = fdiv_s(s - n, s + n);
            let r0 = fmul_s(sq_r0, sq_r0);
            let p1 = s - cosine;
            let p2 = fmul_s(p1, p1);
            let p4 = fmul_s(p2, p2);
            let p5 = fmul_s(p4, p1);
            &&& -s <= sq_r0 <= s
            &&& 0 <= r0 <= s
            &&& 0 <= p2 <= 4 * s
            &&& 0 <= p4 <= 16 * s
            &&& 0 <= p5 <= 32 * s
            &&& 0 <= fmul_s(s - r0, p5) <= 32 * s
            &&& 0 <= schlick_s(cosine, n) <= 33 * s
        }),
{
    let s = SCALE as int;
    let sq_r0 = fdiv_s(s - n, s + n);
    assert(-((s + n) * s) <= (s - n) * s <= (s + n) * s) by (nonlinear_arith)
        requires
            0 <= n,
            s == 65536,
    ;
    assert(((s + n) * s) / (s + n) == s && ((-((s + n) * s)) / (s + n) == -s)) by {
        vstd::arithmetic::div_mod::lemma_div_multiples_vanish(s, s + n);
        vstd::arithmetic::div_mod::lemma_div_multiples_vanish(-s, s + n);
        assert((s + n) * s == s * (s + n) && (s + n) * (-s) == -((s + n) * s)) by (nonlinear_arith);
    }
    vstd::arithmetic::div_mod::lemma_div_is_ordered((s - n) * s, (s + n) * s, s + n);
    vstd::arithmetic::div_mod::lemma_div_is_ordered(-((s + n) * s), (s - n) * s, s + n);
    let r0 = fmul_s(sq_r0, sq_r0);
    assert(sq_r0 * sq_r0 >= 0) by (nonlinear_arith);
    lemma_div_bounds(sq_r0 * sq_r0, s);
    lemma_fmul_s_bound2(sq_r0, sq_r0, 65536, 65536);
    let p1 = s - cosine;
    lemma_fmul_s_bound2(p1, p1, 131072, 131072);
    assert(p1 * p1 >= 0) by (nonlinear_arith);
    lemma_div_bounds(p1 * p1, s);
    let p2 = fmul_s(p1, p1);
    lemma_fmul_s_bound2(p2, p2, 262144, 262144);
    assert(p2 * p2 >= 0) by (nonlinear_arith);
    lemma_div_bounds(p2 * p2, s);
    let p4 = fmul_s(p2, p2);
    lemma_fmul_s_bound2(p4, p1, 1048576, 131072);
    let p5 = fmul_s(p4, p1);
    assert(p4 * p1 >= 0) by (nonlinear_arith)
        requires
            p4 >= 0,
            p1 >= 0,
    ;
    lemma_div_bounds(p4 * p1, s);
    lemma_fmul_s_bound2(s - r0, p5, 65536, 2097152);
    assert((s - r0) * p5 >= 0) by (nonlinear_arith)
        requires
            s - r0 >= 0,
            p5 >= 0,
    ;
    lemma_div_bounds((s - r0) * p5, s);
}

/// A diffuse surface: always scatters, in a direction jittered about the
/// normal, attenuated by its albedo texture.
#[derive(Copy, Clone, Debug, PartialEq, Eq, Structural)]
pub struct Lambertian {
    albedo: Texture,
}

impl Lambertian {
    pub closed spec fn albedo_s(self) -> Texture {
        self.albedo
    }

    pub fn new(color: Texture) -> (r: Self)
        ensures
            r.albedo_s() == color,
    {
        Self { albedo: color }
    }

    pub fn from_color(color: Color) -> (r: Self)
        ensures
            forall|c: crate::vec3::V2, p: V3| #[trigger] texture_value_s(r.albedo_s(), c, p)
                == color@,
    {
        let albedo = Texture::Solid(SolidColor::new(color));
        Self { albedo }
    }

    pub fn albedo(&self) -> (r: Texture)
        ensures
            r == self.albedo_s(),
    {
        self.albedo
    }

    pub fn scatter(&self, in_ray: TimeRay3, hit: BasicHitRecord) -> (r: Option<ScatterRecord>)
        requires
            v3_bounded(hit@.normal, 131072),
        ensures
            r.is_some(),
            r.unwrap()@.attenuation == texture_value_s(
                self.albedo_s(),
                hit@.texture_coord,
                hit@.point,
            ),
            r.unwrap()@.ray.origin == hit@.point,
            r.unwrap()@.ray.time == in_ray@.time,
            exists|u: V3|
                #[trigger] is_unit_dir(u) && r.unwrap()@.ray.direction == v3_add(hit@.normal, u),
    {
        let u = rand_unit_vector();
        let scatter_direction = hit.normal().plus(u);
        let scatter_record = ScatterRecord {
            ray: TimeRay3::new(hit.point(), scatter_direction, in_ray.time()),
            attenuation: self.albedo.value(hit.texture_coordinate(), hit.point()),
        };
        proof {
            assert(is_unit_dir(u@) && scatter_record@.ray.direction == v3_add(hit@.normal, u@));
        }
        Some(scatter_record)
    }
}

/// A reflective surface with an optional fuzz that perturbs the mirrored
/// direction; the fuzz is clamped to at most one at construction.
#[derive(Copy, Clone, Debug, PartialEq, Eq, Structural)]
pub struct Metal {
    albedo: Color,
    fuzz: i64,
}

impl Metal {
    pub closed spec fn albedo_s(self) -> V3 {
        self.albedo@
    }

    pub closed spec fn fuzz_s(self) -> int {
        self.fuzz as int
    }

    /// Fuzz is clamped to at most one, as the reference behaviour demands;
    /// negative fuzz passes through unvalidated (an open input-validation
    /// gap, deliberately not repaired here).  The `-1` floor asked of the
    /// caller is overflow containment only: it keeps the fuzz scaling of a
    /// unit sample inside the scalar range, and matches what scene
    /// well-formedness asks of every metal.
    pub fn new(color: Color, fuzz: i64) -> (r: Self)
        requires
            -(SCALE as int) <= fuzz as int,
        ensures
            r.albedo_s() == color@,
            -(SCALE as int) <= r.fuzz_s() <= SCALE as int,
            r.fuzz_s() == if fuzz as int <= SCALE as int {
                fuzz as int
            } else {
                SCALE as int
            },
    {
        Self {
            albedo: color,
            fuzz: if fuzz < SCALE {
                fuzz
            } else {
                SCALE
            },
        }
    }

    pub fn albedo(&self) -> (r: Color)
        ensures
            r@ == self.albedo_s(),
    {
        self.albedo
    }

    pub fn fuzz(&self) -> (r: i64)
        ensures
            r as int == self.fuzz_s(),
    {
        self.fuzz
    }

    pub fn scatter(&self, in_ray: TimeRay3, hit: BasicHitRecord) -> (r: Option<ScatterRecord>)
        requires
            v3_bounded(hit@.normal, 131072),
            v3_bounded(in_ray@.direction, 0x4000_0000_0000_0000),
            -(SCALE as int) <= self.fuzz_s() <= SCALE as int,
        ensures
            r.is_some(),
            r.unwrap()@.attenuation == self.albedo_s(),
            r.unwrap()@.ray.origin == hit@.point,
            r.unwrap()@.ray.time == in_ray@.time,
            exists|u: V3|
                #[trigger] is_unit_dir(u) && r.unwrap()@.ray.direction == v3_add(
                    v3_reflect(v3_normalized(in_ray@.direction), hit@.normal),
                    v3_scale(u, self.fuzz_s()),
                ),
    {
        let unit = in_ray.direction().normalized();
        let reflected = unit.reflect(hit.normal());
        let u = rand_unit_vector();
        proof {
            lemma_fmul_s_bound2(u@.x, self.fuzz_s(), 65536, 65536);
            lemma_fmul_s_bound2(u@.y, self.fuzz_s(), 65536, 65536);
            lemma_fmul_s_bound2(u@.z, self.fuzz_s(), 65536, 65536);
        }
        let fuzzed = u.scale(self.fuzz);
        let direction = reflected.plus(fuzzed);
        let scatter_record = ScatterRecord {
            ray: TimeRay3::new(hit.point(), direction, in_ray.time()),
            attenuation: self.albedo,
        };
        proof {
            assert(is_unit_dir(u@) && scatter_record@.ray.direction == v3_add(
                v3_reflect(v3_normalized(in_ray@.direction), hit@.normal),
                v3_scale(u@, self.fuzz_s()),
            ));
        }
        Some(scatter_record)
    }
}

/// A clear material that reflects or refracts by Snell's law, choosing
/// stochastically by the Schlick reflectance, and reflecting always under
/// total internal reflection.
#[derive(Copy, Clone, Debug, PartialEq, Eq, Structural)]
pub struct Dielectric {
    refractive_index: i64,
}

/// The index ratio a dielectric applies: entering uses the reciprocal of
/// its index, leaving uses the index itself.
pub open spec fn eta_s(refractive_index: int, front_face: bool) -> int {
    if front_face {
        fdiv_s(SCALE as int, refractive_index)
    } else {
        refractive_index
    }
}

/// The cosine the dielectric works with: against the stored normal and
/// clamped into the unit range.
pub open spec fn diel_cos_s(in_dir: V3, normal: V3) -> int {
    clamp_s(v3_dot(v3_neg(v3_normalized(in_dir)), normal), -(SCALE as int), SCALE as int)
}

/// The matching sine, from the unit identity.
pub open spec fn diel_sin_s(in_dir: V3, normal: V3) -> int {
    let c = diel_cos_s(in_dir, normal);
    isqrt_s(((SCALE as int) - fmul_s(c, c)) * (SCALE as int))
}

/// Total internal reflection: the scaled product of the index ratio and the
/// sine exceeds one.
pub open spec fn diel_tir_s(refractive_index: int, in_dir: V3, normal: V3, front_face: bool) -> bool {
    fmul_s(eta_s(refractive_index, front_face), diel_sin_s(in_dir, normal)) > SCALE as int
}

/// The direction a dielectric scatters toward for a given uniform draw:
/// reflection under total internal reflection or when the draw falls below
/// the Schlick reflectance, Snell refraction otherwise.
pub open spec fn diel_direction_s(
    refractive_index: int,
    in_dir: V3,
    normal: V3,
    front_face: bool,
    draw: int,
) -> V3 {
    let unit = v3_normalized(in_dir);
    let eta = eta_s(refractive_index, front_face);
    if diel_tir_s(refractive_index, in_dir, normal, front_face) || draw < schlick_s(
        diel_cos_s(in_dir, normal),
        eta,
    ) {
        v3_reflect(unit, normal)
    } else {
        v3_refract(unit, normal, eta)
    }
}

impl Dielectric {
    pub closed spec fn refractive_index_s(self) -> int {
        self.refractive_index as int
    }

    /// Any positive index is accepted: the floor of one grid step is
    /// "nonzero" on the fixed-point grid (indices below one whole unit,
    /// such as a medium thinner than its surroundings, are admitted), and
    /// the ceiling is overflow containment for the reciprocal-index ratio.
    pub fn new(refractive_index: i64) -> (r: Self)
        requires
            1 <= refractive_index as int <= 0x100_0000_0000,
        ensures
            r.refractive_index_s() == refractive_index as int,
    {
        Self { refractive_index }
    }

    pub fn refractive_index(&self) -> (r: i64)
        ensures
            r as int == self.refractive_index_s(),
    {
        self.refractive_index
    }

    /// Decide reflection: forced under total internal reflection, otherwise
    /// by the given uniform draw against the Schlick reflectance; `None`
    /// means refract.
    fn is_reflection(
        &self,
        unit_direction: &Vec3,
        hit: &BasicHitRecord,
        cos_theta: i64,
        sin_theta: i64,
        draw: i64,
    ) -> (r: Option<Vec3>)
        requires
            1 <= self.refractive_index_s() <= 0x100_0000_0000,
            v3_bounded(unit_direction@, SCALE as int),
            v3_bounded(hit@.normal, 131072),
            -(SCALE as int) <= cos_theta as int <= SCALE as int,
            0 <= sin_theta as int <= SCALE as int,
            0 <= draw && draw < SCALE,
        ensures
            r.is_some() <==> (fmul_s(
                eta_s(self.refractive_index_s(), hit@.front_face),
                sin_theta as int,
            ) > (SCALE as int) || (draw as int) < schlick_s(
                cos_theta as int,
                eta_s(self.refractive_index_s(), hit@.front_face),
            )),
            r.is_some() ==> r.unwrap()@ == v3_reflect(unit_direction@, hit@.normal),
    {
        let eta_in_over_eta_out: i64 = if hit.front_face() {
            proof {
                crate::fixed::lemma_div_bounds((65536 * 65536) as int, self.refractive_index_s());
            }
            crate::fixed::fdiv(SCALE, self.refractive_index)
        } else {
            self.refractive_index
        };
        proof {
            assert(eta_in_over_eta_out as int == eta_s(
                self.refractive_index_s(),
                hit@.front_face,
            ));
            assert(0 <= eta_s(self.refractive_index_s(), hit@.front_face) <= 0x100_0000_0000) by {
                crate::fixed::lemma_div_bounds((65536 * 65536) as int, self.refractive_index_s());
            }
            lemma_fmul_s_bound2(eta_in_over_eta_out as int, sin_theta as int, 0x100_0000_0000,
                65536);
        }
        if crate::fixed::fmul(eta_in_over_eta_out, sin_theta) > SCALE {
            Some(unit_direction.reflect(hit.normal()))
        } else {
            let reflection_prob = schlick(cos_theta, eta_in_over_eta_out);
            if draw < reflection_prob {
                Some(unit_direction.reflect(hit.normal()))
            } else {
                None
            }
        }
    }

    pub fn scatter(&self, in_ray: TimeRay3, hit: BasicHitRecord) -> (r: Option<ScatterRecord>)
        requires
            1 <= self.refractive_index_s() <= 0x100_0000_0000,
            v3_bounded(hit@.normal, 131072),
            v3_bounded(in_ray@.direction, 0x4000_0000_0000_0000),
        ensures
            r.is_some(),
            r.unwrap()@.attenuation == (V3 { x: SCALE as int, y: SCALE as int, z: SCALE as int }),
            r.unwrap()@.ray.origin == hit@.point,
            r.unwrap()@.ray.time == in_ray@.time,
            r.unwrap()@.ray.direction == v3_reflect(v3_normalized(in_ray@.direction), hit@.normal)
                || r.unwrap()@.ray.direction == v3_refract(
                v3_normalized(in_ray@.direction),
                hit@.normal,
                eta_s(self.refractive_index_s(), hit@.front_face),
            ),
            diel_tir_s(self.refractive_index_s(), in_ray@.direction, hit@.normal, hit@.front_face)
                ==> r.unwrap()@.ray.direction == v3_reflect(
                v3_normalized(in_ray@.direction),
                hit@.normal,
            ),
            exists|draw: int|
                0 <= draw < SCALE as int && r.unwrap()@.ray.direction == #[trigger] diel_direction_s(
                    self.refractive_index_s(),
                    in_ray@.direction,
                    hit@.normal,
                    hit@.front_face,
                    draw,
                ),
    {
        let draw = rand();
        let eta_in_over_eta_out: i64 = if hit.front_face() {
            proof {
                crate::fixed::lemma_div_bounds((65536 * 65536) as int, self.refractive_index_s());
            }
            crate::fixed::fdiv(SCALE, self.refractive_index)
        } else {
            self.refractive_index
        };
        let unit_direction = in_ray.direction().normalized();
        proof {
            crate::vec3::lemma_v3_dot_bound(v3_neg(unit_direction@), hit@.normal, 131072);
        }
        let neg_unit = unit_direction.negate();
        let dw: i128 = neg_unit.dot_wide(&hit.normal());
        let cos_theta: i64 = crate::fixed::clamp(dw as i64, -SCALE, SCALE);
        proof {
            lemma_fmul_s_bound2(cos_theta as int, cos_theta as int, 65536, 65536);
            assert((cos_theta as int) * (cos_theta as int) >= 0) by (nonlinear_arith);
            lemma_div_bounds((cos_theta as int) * (cos_theta as int), SCALE as int);
        }
        let sin_theta: i64 = crate::fixed::fsqrt(SCALE - crate::fixed::fmul(cos_theta, cos_theta));
        proof {
            assert(sin_theta as int <= SCALE as int) by (nonlinear_arith)
                requires
                    0 <= sin_theta as int,
                    (sin_theta as int) * (sin_theta as int) <= ((SCALE as int) - fmul_s(
                        cos_theta as int,
                        cos_theta as int,
                    )) * 65536,
                    0 <= fmul_s(cos_theta as int, cos_theta as int) <= 65536,
            ;
        }
        let scatter_direction: Vec3 = match self.is_reflection(
            &unit_direction,
            &hit,
            cos_theta,
            sin_theta,
            draw,
        ) {
            Some(reflected) => reflected,
            None => unit_direction.refract(hit.normal(), eta_in_over_eta_out),
        };
        proof {
            assert(cos_theta as int == diel_cos_s(in_ray@.direction, hit@.normal));
            assert(sin_theta as int == diel_sin_s(in_ray@.direction, hit@.normal));
            assert(scatter_direction@ == diel_direction_s(
                self.refractive_index_s(),
                in_ray@.direction,
                hit@.normal,
                hit@.front_face,
                draw as int,
            ));
        }
        let scatter_record = ScatterRecord {
            ray: TimeRay3::new(hit.point(), scatter_direction, in_ray.time()),
            attenuation: Vec3(SCALE, SCALE, SCALE),
        };
        Some(scatter_record)
    }
}

/// The closed set of materials, dispatched by match.
#[derive(Copy, Clone, Debug, PartialEq, Eq, Structural)]
pub enum Material {
    Lambertian(Lambertian),
    Metal(Metal),
    Dielectric(Dielectric),
}

/// Well-formedness of a material's parameters: albedo channels within the
/// unit range, fuzz within one in magnitude, a positive refractive index.
pub open spec fn mat_wf(m: Material) -> bool {
    match m {
        Material::Lambertian(l) => texture_in_range(l.albedo_s()),
        Material::Metal(mt) => color_in_range(mt.albedo_s()) && -(SCALE as int) <= mt.fuzz_s()
            <= SCALE as int,
        Material::Dielectric(d) => 1 <= d.refractive_index_s() <= 0x100_0000_0000,
    }
}

/// What scattering guarantees, by material kind.
pub open spec fn scatter_post(m: Material, in_ray: TRay, hit: HitRecS, r: Option<ScatterRecord>) -> bool {
    match m {
        Material::Lambertian(l) => {
            &&& r.is_some()
            &&& r.unwrap()@.attenuation == texture_value_s(
                l.albedo_s(),
                hit.texture_coord,
                hit.point,
            )
            &&& r.unwrap()@.ray.origin == hit.point
            &&& r.unwrap()@.ray.time == in_ray.time
            &&& exists|u: V3|
                #[trigger] is_unit_dir(u) && r.unwrap()@.ray.direction == v3_add(hit.normal, u)
        },
        Material::Metal(mt) => {
            &&& r.is_some()
            &&& r.unwrap()@.attenuation == mt.albedo_s()
            &&& r.unwrap()@.ray.origin == hit.point
            &&& r.unwrap()@.ray.time == in_ray.time
            &&& exists|u: V3|
                #[trigger] is_unit_dir(u) && r.unwrap()@.ray.direction == v3_add(
                    v3_reflect(v3_normalized(in_ray.direction), hit.normal),
                    v3_scale(u, mt.fuzz_s()),
                )
        },
        Material::Dielectric(d) => {
            &&& r.is_some()
            &&& r.unwrap()@.attenuation == (V3 {
                x: SCALE as int,
                y: SCALE as int,
                z: SCALE as int,
            })
            &&& r.unwrap()@.ray.origin == hit.point
            &&& r.unwrap()@.ray.time == in_ray.time
            &&& (r.unwrap()@.ray.direction == v3_reflect(
                v3_normalized(in_ray.direction),
                hit.normal,
            ) || r.unwrap()@.ray.direction == v3_refract(
                v3_normalized(in_ray.direction),
                hit.normal,
                eta_s(d.refractive_index_s(), hit.front_face),
            ))
            &&& (diel_tir_s(d.refractive_index_s(), in_ray.direction, hit.normal, hit.front_face)
                ==> r.unwrap()@.ray.direction == v3_reflect(
                v3_normalized(in_ray.direction),
                hit.normal,
            ))
            &&& exists|draw: int|
                0 <= draw < SCALE as int && r.unwrap()@.ray.direction
                    == #[trigger] diel_direction_s(
                    d.refractive_index_s(),
                    in_ray.direction,
                    hit.normal,
                    hit.front_face,
                    draw,
                )
        },
    }
}

impl Material {
    /// Scatter an incoming ray at a hit point, by this material's model.
    pub fn scatter(&self, in_ray: TimeRay3, hit: BasicHitRecord) -> (r: Option<ScatterRecord>)
        requires
            mat_wf(*self),
            v3_bounded(hit@.normal, 131072),
            v3_bounded(in_ray@.direction, 0x4000_0000_0000_0000),
        ensures
            scatter_post(*self, in_ray@, hit@, r),
    {
        match self {
            Material::Lambertian(l) => l.scatter(in_ray, hit),
            Material::Metal(mt) => mt.scatter(in_ray, hit),
            Material::Dielectric(d) => d.scatter(in_ray, hit),
        }
    }
}

} // verus!
