//! The renderable capability: hit records that carry a material, the closed
//! set of shapes, and the flat scene list with closest-hit semantics.

use vstd::prelude::*;

verus! {

use crate::aabb::{box_merge, AABB, BoxS};
use crate::fixed::scalar_ok;
use crate::hitrecord::{BasicHitRecord, HitRecS};
use crate::interval::Interval;
use crate::material::Material;
use crate::movingsphere::{msph_first_t, MovingSphere};
use crate::ray::{ray_wf, Ray3, TimeRay3, TRay};
use crate::sphere::{sph_first_t, sph_hit_rec, sphere_box_s, Sphere};
use crate::vec3::{v3_bounded, Vec2, Vec3, V3};

/// Mathematical model of a hit together with its material.
pub struct MatHitS {
    pub hit: HitRecS,
    pub material: Material,
}

/// A hit record paired with the material of the surface that was struck.
#[derive(Copy, Clone, Debug, PartialEq, Eq, Structural)]
pub struct MaterialHitRecord {
    hit: BasicHitRecord,
    material: Material,
}

impl View for MaterialHitRecord {
    type V = MatHitS;

    closed spec fn view(&self) -> MatHitS {
        MatHitS { hit: self.hit@, material: self.material }
    }
}

impl MaterialHitRecord {
    pub fn new(
        point: Vec3,
        t: i64,
        ray: Ray3,
        text_coord: Vec2,
        outward_normal: Vec3,
        material: Material,
    ) -> (r: Self)
        requires
            crate::vec3::si64(crate::vec3::v3_dot(ray.direction_s(), outward_normal@)),
            crate::vec3::si64(-outward_normal@.x),
            crate::vec3::si64(-outward_normal@.y),
            crate::vec3::si64(-outward_normal@.z),
        ensures
            r@.hit == crate::hitrecord::hitrec_s(
                point@,
                t as int,
                text_coord@,
                ray.direction_s(),
                outward_normal@,
            ),
            r@.material == material,
    {
        Self { hit: BasicHitRecord::new(point, t, text_coord, ray, outward_normal), material }
    }

    pub fn from_hit(hit: BasicHitRecord, material: Material) -> (r: Self)
        ensures
            r@.hit == hit@,
            r@.material == material,
    {
        Self { hit, material }
    }

    pub fn hit(&self) -> (r: BasicHitRecord)
        ensures
            r@ == self@.hit,
    {
        self.hit
    }

    pub fn point(&self) -> (r: Vec3)
        ensures
            r@ == self@.hit.point,
    {
        self.hit.point()
    }

    pub fn normal(&self) -> (r: Vec3)
        ensures
            r@ == self@.hit.normal,
    {
        self.hit.normal()
    }

    pub fn t(&self) -> (r: i64)
        ensures
            r as int == self@.hit.t,
    {
        self.hit.t()
    }

    pub fn front_face(&self) -> (r: bool)
        ensures
            r == self@.hit.front_face,
    {
        self.hit.front_face()
    }

    pub fn material(&self) -> (r: Material)
        ensures
            r == self@.material,
    {
        self.material
    }
}

/// The closed set of renderable shapes.
#[derive(Copy, Clone, Debug, PartialEq, Eq, Structural)]
pub enum Object {
    Sphere(Sphere),
    MovingSphere(MovingSphere),
}

pub open spec fn obj_wf(o: Object) -> bool {
    match o {
        Object::Sphere(s) => s.wf(),
        Object::MovingSphere(m) => m.wf(),
    }
}

/// The centre an object presents to a ray cast at `time`.
pub open spec fn obj_center_at(o: Object, time: int) -> V3 {
    match o {
        Object::Sphere(s) => s.center_s(),
        Object::MovingSphere(m) => m.center_s(time),
    }
}

pub open spec fn obj_radius(o: Object) -> int {
    match o {
        Object::Sphere(s) => s.radius_s(),
        Object::MovingSphere(m) => m.radius_s(),
    }
}

pub open spec fn obj_material(o: Object) -> Material {
    match o {
        Object::Sphere(s) => s.material_s(),
        Object::MovingSphere(m) => m.material_s(),
    }
}

/// The parameter of the hit an object reports inside `(t_min, t_max)`.
pub open spec fn obj_first_t(o: Object, ray: TRay, t_min: int, t_max: int) -> Option<int> {
    match o {
        Object::Sphere(s) => sph_first_t(s.center_s(), s.radius_s(), ray, t_min, t_max),
        Object::MovingSphere(m) => msph_first_t(
            m.start_center_s(),
            m.end_center_s(),
            m.interval_start_s(),
            m.interval_end_s(),
            m.radius_s(),
            ray,
            t_min,
            t_max,
        ),
    }
}

/// The record an object reports for a hit at parameter `t`.
pub open spec fn obj_hit_rec(o: Object, ray: TRay, t: int) -> MatHitS {
    MatHitS {
        hit: sph_hit_rec(obj_center_at(o, ray.time), obj_radius(o), ray, t),
        material: obj_material(o),
    }
}

/// What an object's hit query reports.
pub open spec fn obj_hit_post(
    o: Object,
    ray: TRay,
    t_min: int,
    t_max: int,
    r: Option<MaterialHitRecord>,
) -> bool {
    match r {
        None => obj_first_t(o, ray, t_min, t_max) is None,
        Some(rec) => {
            &&& obj_first_t(o, ray, t_min, t_max) == Some(rec@.hit.t)
            &&& rec@ == obj_hit_rec(o, ray, rec@.hit.t)
        },
    }
}

/// The box an object is contained in across the span `[i0, i1]`.
pub open spec fn obj_box(o: Object, i0: int, i1: int) -> BoxS {
    match o {
        Object::Sphere(s) => sphere_box_s(s.center_s(), s.radius_s()),
        Object::MovingSphere(m) => box_merge(
            sphere_box_s(m.center_s(i0), m.radius_s()),
            sphere_box_s(m.center_s(i1), m.radius_s()),
        ),
    }
}

/// Whether the box query is computable: a moving sphere's centre must be
/// representable at both ends of the span.
pub open spec fn obj_box_pre(o: Object, i0: int, i1: int) -> bool {
    match o {
        Object::Sphere(_) => true,
        Object::MovingSphere(m) => v3_bounded(m.center_s(i0), crate::fixed::VMAX as int)
            && v3_bounded(m.center_s(i1), crate::fixed::VMAX as int),
    }
}

impl Object {
    /// Intersect a ray with this object inside `(t_min, t_max)`.
    pub fn hit(&self, ray: TimeRay3, t_min: i64, t_max: i64) -> (r: Option<MaterialHitRecord>)
        requires
            obj_wf(*self),
            ray_wf(ray@),
        ensures
            obj_hit_post(*self, ray@, t_min as int, t_max as int, r),
    {
        match self {
            Object::Sphere(s) => s.hit(ray, t_min, t_max),
            Object::MovingSphere(m) => m.hit(ray, t_min, t_max),
        }
    }

    /// The box containing this object across the given span.
    pub fn bounding_box(&self, interval: Interval) -> (r: Option<AABB>)
        requires
            obj_wf(*self),
            scalar_ok(interval.start_s()),
            scalar_ok(interval.end_s()),
            obj_box_pre(*self, interval.start_s(), interval.end_s()),
        ensures
            r is Some,
            r.unwrap()@ == obj_box(*self, interval.start_s(), interval.end_s()),
    {
        match self {
            Object::Sphere(s) => s.bounding_box(interval),
            Object::MovingSphere(m) => m.bounding_box(interval),
        }
    }
}

/// The closest hit over a sequence of objects, scanned left to right with
/// the window's far end tightened to the best hit found so far; on an equal
/// parameter the earlier object wins.
pub open spec fn closest_hit(objs: Seq<Object>, ray: TRay, t_min: int, t_max: int) -> Option<
    MatHitS,
>
    decreases objs.len(),
{
    if objs.len() == 0 {
        None
    } else {
        let prefix = closest_hit(objs.drop_last(), ray, t_min, t_max);
        let o = objs.last();
        match prefix {
            None => match obj_first_t(o, ray, t_min, t_max) {
                Some(t) => Some(obj_hit_rec(o, ray, t)),
                None => None,
            },
            Some(rec) => match obj_first_t(o, ray, t_min, rec.hit.t) {
                Some(t) => Some(obj_hit_rec(o, ray, t)),
                None => Some(rec),
            },
        }
    }
}

/// Tightening the window's far end keeps exactly the hits before it.
pub proof fn lemma_obj_first_t_shrink(o: Object, ray: TRay, t_min: int, b: int, t_max: int)
    requires
        b <= t_max,
    ensures
        obj_first_t(o, ray, t_min, b) == (match obj_first_t(o, ray, t_min, t_max) {
            Some(t) => if t < b {
                Some(t)
            } else {
                None::<int>
            },
            None => None::<int>,
        }),
{
    match o {
        Object::Sphere(s) => {
            crate::sphere::lemma_sph_first_t_shrink(
                s.center_s(),
                s.radius_s(),
                ray,
                t_min,
                b,
                t_max,
            );
        },
        Object::MovingSphere(m) => {
            crate::sphere::lemma_sph_first_t_shrink(
                m.center_s(ray.time),
                m.radius_s(),
                ray,
                t_min,
                b,
                t_max,
            );
        },
    }
}

/// A reported parameter lies strictly inside the window.
pub proof fn lemma_obj_first_t_in_window(o: Object, ray: TRay, t_min: int, t_max: int)
    ensures
        match obj_first_t(o, ray, t_min, t_max) {
            Some(t) => t_min < t < t_max,
            None => true,
        },
{
}

/// The closest hit over a concatenation: scan the left part, then the
/// right part against the best the left part found.
pub proof fn lemma_closest_append(a: Seq<Object>, b: Seq<Object>, ray: TRay, t_min: int, t_max: int)
    ensures
        closest_hit(a + b, ray, t_min, t_max) == (match closest_hit(a, ray, t_min, t_max) {
            None => closest_hit(b, ray, t_min, t_max),
            Some(rec) => match closest_hit(b, ray, t_min, rec.hit.t) {
                Some(r2) => Some(r2),
                None => Some(rec),
            },
        }),
    decreases b.len(),
{
    if b.len() == 0 {
        assert(a + b =~= a);
    } else {
        lemma_closest_append(a, b.drop_last(), ray, t_min, t_max);
        assert((a + b).drop_last() =~= a + b.drop_last());
        assert((a + b).last() == b.last());
    }
}

/// What the closest-hit scan reports: a genuine hit of some member, no
/// member hits closer, and on a miss no member hits at all.
pub proof fn lemma_closest_characterization(s: Seq<Object>, ray: TRay, t_min: int, t_max: int)
    ensures
        match closest_hit(s, ray, t_min, t_max) {
            None => forall|i: int| 0 <= i < s.len() ==> #[trigger] obj_first_t(
                s[i],
                ray,
                t_min,
                t_max,
            ) is None,
            Some(rec) => {
                &&& exists|i: int|
                    0 <= i < s.len() && #[trigger] obj_first_t(s[i], ray, t_min, t_max) == Some(
                        rec.hit.t,
                    ) && rec == obj_hit_rec(s[i], ray, rec.hit.t)
                &&& forall|i: int| 0 <= i < s.len() ==> match #[trigger] obj_first_t(
                    s[i],
                    ray,
                    t_min,
                    t_max,
                ) {
                    Some(t) => rec.hit.t <= t,
                    None => true,
                }
            },
        },
    decreases s.len(),
{
    if s.len() == 0 {
    } else {
        let pre = s.drop_last();
        let o = s.last();
        lemma_closest_characterization(pre, ray, t_min, t_max);
        assert(forall|i: int| 0 <= i < pre.len() ==> s[i] == pre[i]);
        assert(s[s.len() - 1] == o);
        match closest_hit(pre, ray, t_min, t_max) {
            None => {
                match obj_first_t(o, ray, t_min, t_max) {
                    Some(t) => {
                        let rec = obj_hit_rec(o, ray, t);
                        assert(obj_first_t(s[s.len() - 1], ray, t_min, t_max) == Some(rec.hit.t)
                            && rec == obj_hit_rec(s[s.len() - 1], ray, rec.hit.t));
                    },
                    None => {},
                }
            },
            Some(rec) => {
                lemma_obj_first_t_shrink(o, ray, t_min, rec.hit.t, t_max);
                match obj_first_t(o, ray, t_min, rec.hit.t) {
                    Some(t) => {
                        let rec2 = obj_hit_rec(o, ray, t);
                        assert(obj_first_t(s[s.len() - 1], ray, t_min, t_max) == Some(rec2.hit.t)
                            && rec2 == obj_hit_rec(s[s.len() - 1], ray, rec2.hit.t));
                    },
                    None => {
                        let ghost wit = choose|i: int|
                            0 <= i < pre.len() && #[trigger] obj_first_t(pre[i], ray, t_min, t_max)
                                == Some(rec.hit.t) && rec == obj_hit_rec(pre[i], ray, rec.hit.t);
                        assert(obj_first_t(s[wit], ray, t_min, t_max) == Some(rec.hit.t) && rec
                            == obj_hit_rec(s[wit], ray, rec.hit.t));
                    },
                }
            },
        }
    }
}

/// The parameter of the closest hit, alone.
pub open spec fn closest_t(s: Seq<Object>, ray: TRay, t_min: int, t_max: int) -> Option<int> {
    match closest_hit(s, ray, t_min, t_max) {
        Some(rec) => Some(rec.hit.t),
        None => None,
    }
}

/// Two scenes holding the same objects, in any order and multiplicity,
/// report the same closest hit distance for every ray and window: the scan
/// order cannot change the minimum.
pub proof fn lemma_closest_t_permutation(
    a: Seq<Object>,
    b: Seq<Object>,
    ray: TRay,
    t_min: int,
    t_max: int,
)
    requires
        forall|o: Object| a.contains(o) <==> b.contains(o),
    ensures
        closest_t(a, ray, t_min, t_max) == closest_t(b, ray, t_min, t_max),
{
    lemma_closest_characterization(a, ray, t_min, t_max);
    lemma_closest_characterization(b, ray, t_min, t_max);
    match closest_hit(a, ray, t_min, t_max) {
        None => {
            match closest_hit(b, ray, t_min, t_max) {
                None => {},
                Some(recb) => {
                    let j = choose|j: int|
                        0 <= j < b.len() && #[trigger] obj_first_t(b[j], ray, t_min, t_max)
                            == Some(recb.hit.t) && recb == obj_hit_rec(b[j], ray, recb.hit.t);
                    assert(b.contains(b[j]));
                    assert(a.contains(b[j]));
                    let i = choose|i: int| 0 <= i < a.len() && a[i] == b[j];
                    assert(obj_first_t(a[i], ray, t_min, t_max) is None);
                },
            }
        },
        Some(reca) => {
            match closest_hit(b, ray, t_min, t_max) {
                None => {
                    let i = choose|i: int|
                        0 <= i < a.len() && #[trigger] obj_first_t(a[i], ray, t_min, t_max)
                            == Some(reca.hit.t) && reca == obj_hit_rec(a[i], ray, reca.hit.t);
                    assert(a.contains(a[i]));
                    assert(b.contains(a[i]));
                    let j = choose|j: int| 0 <= j < b.len() && b[j] == a[i];
                    assert(obj_first_t(b[j], ray, t_min, t_max) is None);
                },
                Some(recb) => {
                    let i = choose|i: int|
                        0 <= i < a.len() && #[trigger] obj_first_t(a[i], ray, t_min, t_max)
                            == Some(reca.hit.t) && reca == obj_hit_rec(a[i], ray, reca.hit.t);
                    assert(a.contains(a[i]));
                    assert(b.contains(a[i]));
                    let j0 = choose|j: int| 0 <= j < b.len() && b[j] == a[i];
                    assert(match obj_first_t(b[j0], ray, t_min, t_max) {
                        Some(t) => recb.hit.t <= t,
                        None => true,
                    });
                    let j = choose|j: int|
                        0 <= j < b.len() && #[trigger] obj_first_t(b[j], ray, t_min, t_max)
                            == Some(recb.hit.t) && recb == obj_hit_rec(b[j], ray, recb.hit.t);
                    assert(b.contains(b[j]));
                    assert(a.contains(b[j]));
                    let i0 = choose|i: int| 0 <= i < a.len() && a[i] == b[j];
                    assert(match obj_first_t(a[i0], ray, t_min, t_max) {
                        Some(t) => reca.hit.t <= t,
                        None => true,
                    });
                },
            }
        },
    }
}

/// The fold of every object's box over the span; none for an empty scene.
pub open spec fn list_box(objs: Seq<Object>, i0: int, i1: int) -> Option<BoxS>
    decreases objs.len(),
{
    if objs.len() == 0 {
        None
    } else if objs.len() == 1 {
        Some(obj_box(objs[0], i0, i1))
    } else {
        match list_box(objs.drop_last(), i0, i1) {
            Some(b) => Some(box_merge(b, obj_box(objs.last(), i0, i1))),
            None => None,
        }
    }
}

/// A flat scene: every object is scanned in order.
pub struct HitList {
    objects: Vec<Object>,
}

impl HitList {
    pub closed spec fn objects_s(self) -> Seq<Object> {
        self.objects@
    }

    pub open spec fn wf(self) -> bool {
        forall|i: int| 0 <= i < self.objects_s().len() ==> obj_wf(#[trigger] self.objects_s()[i])
    }

    pub fn new() -> (r: Self)
        ensures
            r.objects_s() =~= Seq::<Object>::empty(),
            r.wf(),
    {
        Self { objects: Vec::new() }
    }

    pub fn with(object: Object) -> (r: Self)
        requires
            obj_wf(object),
        ensures
            r.objects_s() =~= seq![object],
            r.wf(),
    {
        let mut objects = Vec::new();
        objects.push(object);
        Self { objects }
    }

    pub fn clear(&mut self)
        ensures
            final(self).objects_s() =~= Seq::<Object>::empty(),
            final(self).wf(),
    {
        self.objects.clear();
    }

    pub fn add(&mut self, object: Object)
        requires
            obj_wf(object),
        ensures
            final(self).objects_s() =~= old(self).objects_s().push(object),
            old(self).wf() ==> final(self).wf(),
    {
        self.objects.push(object);
        proof {
            if old(self).wf() {
                assert forall|i: int| 0 <= i < self.objects_s().len() implies obj_wf(
                    #[trigger] self.objects_s()[i],
                ) by {
                    if i < old(self).objects_s().len() {
                        assert(self.objects_s()[i] == old(self).objects_s()[i]);
                    }
                }
            }
        }
    }

    /// The objects of this scene, in scan order.
    pub fn objects(&self) -> (r: &Vec<Object>)
        ensures
            r@ == self.objects_s(),
    {
        &self.objects
    }

    /// The closest hit over all members: the search window's far end
    /// shrinks to each confirmed hit.
    pub fn hit(&self, ray: TimeRay3, t_min: i64, t_max: i64) -> (r: Option<MaterialHitRecord>)
        requires
            self.wf(),
            ray_wf(ray@),
        ensures
            match r {
                None => closest_hit(self.objects_s(), ray@, t_min as int, t_max as int) is None,
                Some(rec) => closest_hit(self.objects_s(), ray@, t_min as int, t_max as int)
                    == Some(rec@),
            },
    {
        let ghost objs = self.objects_s();
        let mut last_hit: Option<MaterialHitRecord> = None;
        let mut closest_so_far: i64 = t_max;
        let n = self.objects.len();
        let mut i: usize = 0;
        while i < n
            invariant
                0 <= i <= n,
                n == objs.len(),
                objs == self.objects_s(),
                self.wf(),
                ray_wf(ray@),
                match last_hit {
                    None => closest_hit(objs.take(i as int), ray@, t_min as int, t_max as int)
                        is None && closest_so_far == t_max,
                    Some(rec) => closest_hit(objs.take(i as int), ray@, t_min as int, t_max as int)
                        == Some(rec@) && closest_so_far as int == rec@.hit.t,
                },
            decreases n - i,
        {
            let value = self.objects[i].hit(ray, t_min, closest_so_far);
            proof {
                assert(objs.take(i as int + 1).drop_last() =~= objs.take(i as int));
                assert(objs.take(i as int + 1).last() == objs[i as int]);
            }
            match value {
                Some(v) => {
                    closest_so_far = v.t();
                    last_hit = Some(v);
                },
                None => {},
            }
            i = i + 1;
        }
        proof {
            assert(objs.take(n as int) =~= objs);
        }
        last_hit
    }

    /// The merge of every member's box; none when the scene is empty.
    pub fn bounding_box(&self, interval: Interval) -> (r: Option<AABB>)
        requires
            self.wf(),
            scalar_ok(interval.start_s()),
            scalar_ok(interval.end_s()),
            forall|i: int| 0 <= i < self.objects_s().len() ==> obj_box_pre(
                #[trigger] self.objects_s()[i],
                interval.start_s(),
                interval.end_s(),
            ),
        ensures
            match r {
                None => self.objects_s().len() == 0,
                Some(b) => list_box(self.objects_s(), interval.start_s(), interval.end_s())
                    == Some(b@),
            },
    {
        let ghost objs = self.objects_s();
        let n = self.objects.len();
        if n == 0 {
            return None;
        }
        let first = self.objects[0].bounding_box(interval);
        let mut acc: AABB = match first {
            Some(b) => b,
            None => {
                proof {
                    assert(false);
                }
                AABB::new(Vec3(0, 0, 0), Vec3(0, 0, 0))
            },
        };
        let mut i: usize = 1;
        proof {
            assert(objs.take(1) =~= seq![objs[0]]);
        }
        while i < n
            invariant
                1 <= i <= n,
                n == objs.len(),
                objs == self.objects_s(),
                self.wf(),
                scalar_ok(interval.start_s()),
                scalar_ok(interval.end_s()),
                forall|j: int| 0 <= j < objs.len() ==> obj_box_pre(
                    #[trigger] objs[j],
                    interval.start_s(),
                    interval.end_s(),
                ),
                list_box(objs.take(i as int), interval.start_s(), interval.end_s()) == Some(acc@),
            decreases n - i,
        {
            let current = self.objects[i].bounding_box(interval);
            proof {
                assert(objs.take(i as int + 1).drop_last() =~= objs.take(i as int));
                assert(objs.take(i as int + 1).last() == objs[i as int]);
            }
            match current {
                Some(b) => {
                    acc = acc.surrounding_box(&b);
                },
                None => {
                    proof {
                        assert(false);
                    }
                },
            }
            i = i + 1;
        }
        proof {
            assert(objs.take(n as int) =~= objs);
        }
        Some(acc)
    }
}

} // verus!
