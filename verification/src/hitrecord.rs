//! The record produced when a ray strikes a surface.

use vstd::prelude::*;

verus! {

use crate::fixed::{lemma_div_neg_numerator, SCALE};
use crate::ray::Ray3;
use crate::vec3::{si64, v3_dot, v3_neg, V2, V3, Vec2, Vec3};

/// Mathematical model of a hit record.
pub struct HitRecS {
    pub point: V3,
    pub normal: V3,
    pub t: int,
    pub texture_coord: V2,
    pub front_face: bool,
}

/// The record built from a geometric outward normal: `front_face` tells
/// whether the ray arrived from outside, and the stored normal is flipped so
/// that it always opposes the incoming ray.
pub open spec fn hitrec_s(point: V3, t: int, texture_coord: V2, ray_dir: V3, outward: V3) -> HitRecS {
    let front_face = v3_dot(ray_dir, outward) < 0;
    HitRecS {
        point,
        normal: if front_face {
            outward
        } else {
            v3_neg(outward)
        },
        t,
        texture_coord,
        front_face,
    }
}

/// The stored normal never points along the incoming ray: its scaled dot
/// product with the ray direction is at most zero.
pub proof fn lemma_normal_faces_ray(point: V3, t: int, texture_coord: V2, ray_dir: V3, outward: V3)
    ensures
        v3_dot(ray_dir, hitrec_s(point, t, texture_coord, ray_dir, outward).normal) <= 0,
{
    let rec = hitrec_s(point, t, texture_coord, ray_dir, outward);
    if !rec.front_face {
        assert(ray_dir.x * (-outward.x) == -(ray_dir.x * outward.x)) by (nonlinear_arith);
        assert(ray_dir.y * (-outward.y) == -(ray_dir.y * outward.y)) by (nonlinear_arith);
        assert(ray_dir.z * (-outward.z) == -(ray_dir.z * outward.z)) by (nonlinear_arith);
        lemma_div_neg_numerator(ray_dir.x * outward.x, SCALE as int);
        lemma_div_neg_numerator(ray_dir.y * outward.y, SCALE as int);
        lemma_div_neg_numerator(ray_dir.z * outward.z, SCALE as int);
    }
}

/// What a ray records when it strikes a surface.
#[derive(Copy, Clone, Debug, PartialEq, Eq, Structural)]
pub struct BasicHitRecord {
    point: Vec3,
    normal: Vec3,
    t: i64,
    texture_coord: Vec2,
    front_face: bool,
}

impl View for BasicHitRecord {
    type V = HitRecS;

    closed spec fn view(&self) -> HitRecS {
        HitRecS {
            point: self.point@,
            normal: self.normal@,
            t: self.t as int,
            texture_coord: self.texture_coord@,
            front_face: self.front_face,
        }
    }
}

impl BasicHitRecord {
    pub fn new(point: Vec3, t: i64, texture_coord: Vec2, ray: Ray3, outward_normal: Vec3) -> (r:
        Self)
        requires
            si64(v3_dot(ray.direction_s(), outward_normal@)),
            si64(-outward_normal@.x),
            si64(-outward_normal@.y),
            si64(-outward_normal@.z),
        ensures
            r@ == hitrec_s(point@, t as int, texture_coord@, ray.direction_s(), outward_normal@),
            v3_dot(ray.direction_s(), r@.normal) <= 0,
    {
        proof {
            lemma_normal_faces_ray(
                point@,
                t as int,
                texture_coord@,
                ray.direction_s(),
                outward_normal@,
            );
        }
        let front_face = ray.direction().dot(outward_normal) < 0;
        let normal = if front_face {
            outward_normal
        } else {
            outward_normal.negate()
        };
        Self { point, normal, front_face, t, texture_coord }
    }

    pub fn point(&self) -> (r: Vec3)
        ensures
            r@ == self@.point,
    {
        self.point
    }

    pub fn normal(&self) -> (r: Vec3)
        ensures
            r@ == self@.normal,
    {
        self.normal
    }

    pub fn t(&self) -> (r: i64)
        ensures
            r as int == self@.t,
    {
        self.t
    }

    pub fn texture_coordinate(&self) -> (r: Vec2)
        ensures
            r@ == self@.texture_coord,
    {
        self.texture_coord
    }

    pub fn front_face(&self) -> (r: bool)
        ensures
            r == self@.front_face,
    {
        self.front_face
    }
}

} // verus!
