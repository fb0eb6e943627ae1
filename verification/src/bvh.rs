//! The bounding-volume hierarchy: a binary tree of boxes that prunes
//! intersection work, proved to report the same closest hit as a flat scan
//! of the same objects whenever the ray's shutter instant lies inside the
//! span the tree was built for (for a scene of resting spheres, any span).

use vstd::prelude::*;

verus! {

use crate::aabb::{at_in_box, box_inside, box_merge, slab_hit_s, AABB, BoxS};
use crate::fixed::scalar_ok;
use crate::hit::{
    closest_hit, lemma_closest_append, lemma_closest_characterization, lemma_obj_first_t_in_window,
    lemma_obj_first_t_shrink, obj_box, obj_box_pre, obj_first_t, obj_hit_rec, obj_wf,
    MaterialHitRecord, Object,
};
use crate::interval::Interval;
use crate::ray::{ray_wf, TimeRay3, TRay};
use crate::rng::rand_between;

/// One child of a tree node: a shape, or a subtree.
pub enum BvhChild {
    Leaf(Object),
    Node(Box<BVH>),
}

/// A tree node: two children and the box that bounds everything below.
pub struct BVH {
    left: BvhChild,
    right: BvhChild,
    bounding_box: AABB,
}

/// The objects below a child, in tree order.
pub closed spec fn child_objects(c: BvhChild) -> Seq<Object>
    decreases c,
{
    match c {
        BvhChild::Leaf(o) => seq![o],
        BvhChild::Node(b) => bvh_objects(*b),
    }
}

/// The objects below a node, in tree order.
pub closed spec fn bvh_objects(b: BVH) -> Seq<Object>
    decreases b,
{
    child_objects(b.left) + child_objects(b.right)
}

/// The box a child claims for itself.
pub closed spec fn child_box(c: BvhChild, i0: int, i1: int) -> BoxS
    decreases c,
{
    match c {
        BvhChild::Leaf(o) => obj_box(o, i0, i1),
        BvhChild::Node(b) => b.bounding_box@,
    }
}

/// Every shape below is well-formed and box-computable.
pub closed spec fn child_basic_wf(c: BvhChild) -> bool
    decreases c,
{
    match c {
        BvhChild::Leaf(o) => obj_wf(o),
        BvhChild::Node(b) => bvh_basic_wf(*b),
    }
}

pub closed spec fn bvh_basic_wf(b: BVH) -> bool
    decreases b,
{
    child_basic_wf(b.left) && child_basic_wf(b.right)
}

/// The tree was built for the span `[i0, i1]`: each node's box contains
/// its children's boxes, down to each shape's own box over that span.
pub closed spec fn child_wf(c: BvhChild, i0: int, i1: int) -> bool
    decreases c,
{
    match c {
        BvhChild::Leaf(o) => obj_wf(o) && obj_box_pre(o, i0, i1),
        BvhChild::Node(b) => bvh_wf(*b, i0, i1),
    }
}

pub closed spec fn bvh_wf(b: BVH, i0: int, i1: int) -> bool
    decreases b,
{
    &&& child_wf(b.left, i0, i1)
    &&& child_wf(b.right, i0, i1)
    &&& box_inside(child_box(b.left, i0, i1), b.bounding_box@)
    &&& box_inside(child_box(b.right, i0, i1), b.bounding_box@)
}

/// Whether every root this object can report, over any window, lands the
/// ray inside the object's own box for the span `[i0, i1]`.
pub open spec fn obj_roots_in_box(o: Object, ray: TRay, i0: int, i1: int) -> bool {
    forall|t_min: int, t_max: int|
        match #[trigger] obj_first_t(o, ray, t_min, t_max) {
            Some(t) => at_in_box(obj_box(o, i0, i1), ray.origin, ray.direction, t),
            None => true,
        }
}

/// The roots-in-box fact holds of every well-formed object, for any span
/// containing the ray's shutter instant: acceptance itself checks the hit
/// point against the padded box of the centre the ray sees, and a moving
/// centre stays between the centres at the span's ends.
pub proof fn lemma_roots_in_box_holds(o: Object, ray: TRay, i0: int, i1: int)
    requires
        obj_wf(o),
        i0 <= ray.time <= i1,
    ensures
        obj_roots_in_box(o, ray, i0, i1),
{
    assert forall|t_min: int, t_max: int|
        match #[trigger] obj_first_t(o, ray, t_min, t_max) {
            Some(t) => at_in_box(obj_box(o, i0, i1), ray.origin, ray.direction, t),
            None => true,
        } by {
        match obj_first_t(o, ray, t_min, t_max) {
            Some(t) => {
                match o {
                    Object::Sphere(_) => {},
                    Object::MovingSphere(m) => {
                        crate::movingsphere::lemma_msph_center_between(m, i0, i1, ray.time);
                    },
                }
            },
            None => {},
        }
    }
}

/// Every object below a basically well-formed child is well-formed.
proof fn lemma_child_objects_wf(c: BvhChild, k: int)
    requires
        child_basic_wf(c),
        0 <= k < child_objects(c).len(),
    ensures
        obj_wf(child_objects(c)[k]),
    decreases c,
{
    match c {
        BvhChild::Leaf(_) => {},
        BvhChild::Node(b) => {
            lemma_bvh_objects_wf(*b, k);
        },
    }
}

/// Every object below a basically well-formed node is well-formed.
proof fn lemma_bvh_objects_wf(b: BVH, k: int)
    requires
        bvh_basic_wf(b),
        0 <= k < bvh_objects(b).len(),
    ensures
        obj_wf(bvh_objects(b)[k]),
    decreases b,
{
    let lc = child_objects(b.left);
    if k < lc.len() {
        lemma_child_objects_wf(b.left, k);
        assert(bvh_objects(b)[k] == lc[k]);
    } else {
        lemma_child_objects_wf(b.right, k - lc.len());
        assert(bvh_objects(b)[k] == child_objects(b.right)[k - lc.len()]);
    }
}

/// Every object below a well-formed child keeps its box inside the
/// child's box.
proof fn lemma_child_box_contains(c: BvhChild, i0: int, i1: int, k: int)
    requires
        child_wf(c, i0, i1),
        0 <= k < child_objects(c).len(),
    ensures
        box_inside(obj_box(child_objects(c)[k], i0, i1), child_box(c, i0, i1)),
    decreases c,
{
    match c {
        BvhChild::Leaf(_) => {
        },
        BvhChild::Node(b) => {
            lemma_bvh_box_contains(*b, i0, i1, k);
            let lc = child_objects(b.left);
            if k < lc.len() {
                crate::aabb::lemma_merge_contains_both(
                    child_box(b.left, i0, i1),
                    child_box(b.right, i0, i1),
                );
            }
        },
    }
}

/// Every object below a node that is well-formed for the span keeps its
/// own box inside the node's cached box.
pub proof fn lemma_bvh_box_contains(b: BVH, i0: int, i1: int, k: int)
    requires
        bvh_wf(b, i0, i1),
        0 <= k < bvh_objects(b).len(),
    ensures
        box_inside(obj_box(bvh_objects(b)[k], i0, i1), b.box_s()),
    decreases b,
{
    let lc = child_objects(b.left);
    let rc = child_objects(b.right);
    if k < lc.len() {
        lemma_child_box_contains(b.left, i0, i1, k);
        assert(bvh_objects(b)[k] == lc[k]);
        lemma_box_inside_trans(
            obj_box(lc[k], i0, i1),
            child_box(b.left, i0, i1),
            b.bounding_box@,
        );
    } else {
        lemma_child_box_contains(b.right, i0, i1, k - lc.len());
        assert(bvh_objects(b)[k] == rc[k - lc.len()]);
        lemma_box_inside_trans(
            obj_box(rc[k - lc.len()], i0, i1),
            child_box(b.right, i0, i1),
            b.bounding_box@,
        );
    }
}

proof fn lemma_box_inside_trans(a: BoxS, b: BoxS, c: BoxS)
    requires
        box_inside(a, b),
        box_inside(b, c),
    ensures
        box_inside(a, c),
{
}

/// What a child or node hit reports: a genuine member hit over the queried
/// window; and, whenever the tree is well-formed for a span and every
/// candidate root lands inside its object's box, exactly the closest hit.
pub open spec fn tree_hit_post(
    objs: Seq<Object>,
    ray: TRay,
    t_min: int,
    t_max: int,
    r: Option<MaterialHitRecord>,
) -> bool {
    match r {
        None => true,
        Some(rec) => exists|k: int|
            0 <= k < objs.len() && #[trigger] obj_first_t(objs[k], ray, t_min, t_max) == Some(
                rec@.hit.t,
            ) && rec@ == obj_hit_rec(objs[k], ray, rec@.hit.t),
    }
}

impl BvhChild {
    fn hit(&self, ray: TimeRay3, t_min: i64, t_max: i64) -> (r: Option<MaterialHitRecord>)
        requires
            child_basic_wf(*self),
            ray_wf(ray@),
        ensures
            tree_hit_post(child_objects(*self), ray@, t_min as int, t_max as int, r),
            forall|i0: int, i1: int|
                #[trigger] child_wf(*self, i0, i1) && i0 <= ray@.time <= i1 ==> match r {
                    None => closest_hit(child_objects(*self), ray@, t_min as int, t_max as int)
                        is None,
                    Some(rec) => closest_hit(child_objects(*self), ray@, t_min as int, t_max as int)
                        == Some(rec@),
                },
        decreases *self,
    {
        match self {
            BvhChild::Leaf(o) => {
                let res = o.hit(ray, t_min, t_max);
                proof {
                    let objs = child_objects(*self);
                    assert(objs =~= seq![*o]);
                    assert(objs.drop_last() =~= Seq::<Object>::empty());
                    assert(objs.last() == *o);
                    assert(closest_hit(Seq::<Object>::empty(), ray@, t_min as int, t_max as int)
                        is None);
                    match res {
                        Some(rec) => {
                            assert(obj_first_t(objs[0], ray@, t_min as int, t_max as int) == Some(
                                rec@.hit.t,
                            ) && rec@ == obj_hit_rec(objs[0], ray@, rec@.hit.t));
                            assert(closest_hit(objs, ray@, t_min as int, t_max as int) == Some(
                                rec@,
                            ));
                        },
                        None => {
                            assert(closest_hit(objs, ray@, t_min as int, t_max as int) is None);
                        },
                    }
                }
                res
            },
            BvhChild::Node(b) => {
                let res = b.hit(ray, t_min, t_max);
                proof {
                    assert(child_objects(*self) == bvh_objects(**b));
                    assert forall|i0: int, i1: int|
                        #[trigger] child_wf(*self, i0, i1) && i0 <= ray@.time <= i1 implies (match res {
                        None => closest_hit(child_objects(*self), ray@, t_min as int, t_max as int)
                            is None,
                        Some(rec) => closest_hit(
                            child_objects(*self),
                            ray@,
                            t_min as int,
                            t_max as int,
                        ) == Some(rec@),
                    }) by {
                        assert(bvh_wf(**b, i0, i1));
                    }
                }
                res
            },
        }
    }
}

impl BVH {
    pub closed spec fn box_s(self) -> BoxS {
        self.bounding_box@
    }

    pub closed spec fn left_s(self) -> BvhChild {
        self.left
    }

    pub closed spec fn right_s(self) -> BvhChild {
        self.right
    }

    pub fn left(&self) -> (r: &BvhChild)
        ensures
            *r == self.left_s(),
    {
        &self.left
    }

    pub fn right(&self) -> (r: &BvhChild)
        ensures
            *r == self.right_s(),
    {
        &self.right
    }

    /// The node's cached bounding box.
    pub fn bounding_box(&self) -> (r: &AABB)
        ensures
            r@ == self.box_s(),
    {
        &self.bounding_box
    }

    /// Intersect a ray with everything below this node: the box gate is
    /// consulted first, then the nearer of the two children's results wins.
    pub fn hit(&self, ray: TimeRay3, t_min: i64, t_max: i64) -> (r: Option<MaterialHitRecord>)
        requires
            bvh_basic_wf(*self),
            ray_wf(ray@),
        ensures
            !slab_hit_s(self.box_s(), ray@.origin, ray@.direction, t_min as int, t_max as int)
                ==> r is None,
            tree_hit_post(bvh_objects(*self), ray@, t_min as int, t_max as int, r),
            forall|i0: int, i1: int|
                #[trigger] bvh_wf(*self, i0, i1) && i0 <= ray@.time <= i1 ==> match r {
                    None => closest_hit(bvh_objects(*self), ray@, t_min as int, t_max as int)
                        is None,
                    Some(rec) => closest_hit(bvh_objects(*self), ray@, t_min as int, t_max as int)
                        == Some(rec@),
                },
        decreases *self,
    {
        let ghost objs = bvh_objects(*self);
        let ghost lobjs = child_objects(self.left);
        let ghost robjs = child_objects(self.right);
        proof {
            assert(objs == lobjs + robjs);
        }
        if !self.bounding_box.hit(&ray, t_min, t_max) {
            proof {
                assert forall|i0: int, i1: int|
                    #[trigger] bvh_wf(*self, i0, i1) && i0 <= ray@.time <= i1 implies (
                closest_hit(objs, ray@, t_min as int, t_max as int) is None) by {
                    lemma_closest_characterization(objs, ray@, t_min as int, t_max as int);
                    match closest_hit(objs, ray@, t_min as int, t_max as int) {
                        Some(rec) => {
                            let k = choose|k: int|
                                0 <= k < objs.len() && #[trigger] obj_first_t(
                                    objs[k],
                                    ray@,
                                    t_min as int,
                                    t_max as int,
                                ) == Some(rec.hit.t) && rec == obj_hit_rec(
                                    objs[k],
                                    ray@,
                                    rec.hit.t,
                                );
                            lemma_obj_first_t_in_window(objs[k], ray@, t_min as int, t_max as int);
                            lemma_bvh_box_contains(*self, i0, i1, k);
                            lemma_bvh_objects_wf(*self, k);
                            lemma_roots_in_box_holds(objs[k], ray@, i0, i1);
                            assert(at_in_box(
                                obj_box(objs[k], i0, i1),
                                ray@.origin,
                                ray@.direction,
                                rec.hit.t,
                            ));
                            assert(at_in_box(
                                self.bounding_box@,
                                ray@.origin,
                                ray@.direction,
                                rec.hit.t,
                            ));
                            assert(slab_hit_s(
                                self.bounding_box@,
                                ray@.origin,
                                ray@.direction,
                                t_min as int,
                                t_max as int,
                            ));
                            assert(false);
                        },
                        None => {},
                    }
                }
            }
            return None;
        }
        let hit_left = self.left.hit(ray, t_min, t_max);
        match hit_left {
            None => {
                let res = self.right.hit(ray, t_min, t_max);
                proof {
                    match res {
                        Some(rec) => {
                            let k = choose|k: int|
                                0 <= k < robjs.len() && #[trigger] obj_first_t(
                                    robjs[k],
                                    ray@,
                                    t_min as int,
                                    t_max as int,
                                ) == Some(rec@.hit.t) && rec@ == obj_hit_rec(
                                    robjs[k],
                                    ray@,
                                    rec@.hit.t,
                                );
                            assert(objs[lobjs.len() + k] == robjs[k]);
                        },
                        None => {},
                    }
                    assert forall|i0: int, i1: int|
                        #[trigger] bvh_wf(*self, i0, i1) && i0 <= ray@.time <= i1
                        implies (match res {
                        None => closest_hit(objs, ray@, t_min as int, t_max as int) is None,
                        Some(rec) => closest_hit(objs, ray@, t_min as int, t_max as int) == Some(
                            rec@,
                        ),
                    }) by {
                        assert(child_wf(self.left, i0, i1));
                        assert(child_wf(self.right, i0, i1));
                        assert(closest_hit(lobjs, ray@, t_min as int, t_max as int) is None);
                        lemma_closest_append(lobjs, robjs, ray@, t_min as int, t_max as int);
                    }
                }
                res
            },
            Some(h) => {
                let hr = self.right.hit(ray, t_min, h.t());
                proof {
                    let hk = choose|k: int|
                        0 <= k < lobjs.len() && #[trigger] obj_first_t(
                            lobjs[k],
                            ray@,
                            t_min as int,
                            t_max as int,
                        ) == Some(h@.hit.t) && h@ == obj_hit_rec(lobjs[k], ray@, h@.hit.t);
                    assert(objs[hk] == lobjs[hk]);
                    match hr {
                        Some(rec) => {
                            let k = choose|k: int|
                                0 <= k < robjs.len() && #[trigger] obj_first_t(
                                    robjs[k],
                                    ray@,
                                    t_min as int,
                                    h@.hit.t,
                                ) == Some(rec@.hit.t) && rec@ == obj_hit_rec(
                                    robjs[k],
                                    ray@,
                                    rec@.hit.t,
                                );
                            lemma_obj_first_t_shrink(
                                robjs[k],
                                ray@,
                                t_min as int,
                                h@.hit.t,
                                t_max as int,
                            );
                            assert(objs[lobjs.len() + k] == robjs[k]);
                        },
                        None => {},
                    }
                    assert forall|i0: int, i1: int|
                        #[trigger] bvh_wf(*self, i0, i1) && i0 <= ray@.time <= i1
                        implies (match hr {
                        None => closest_hit(objs, ray@, t_min as int, t_max as int) == Some(h@),
                        Some(rec) => closest_hit(objs, ray@, t_min as int, t_max as int) == Some(
                            rec@,
                        ),
                    }) by {
                        assert(child_wf(self.left, i0, i1));
                        assert(child_wf(self.right, i0, i1));
                        assert(closest_hit(lobjs, ray@, t_min as int, t_max as int) == Some(h@));

                        lemma_closest_append(lobjs, robjs, ray@, t_min as int, t_max as int);
                    }
                }
                match hr {
                    Some(r2) => Some(r2),
                    None => Some(h),
                }
            },
        }
    }
}

/// The ordering key of the hierarchy builder: the box's smallest
/// coordinate along the chosen axis.
pub open spec fn obj_key(o: Object, axis: int, i0: int, i1: int) -> int {
    let b = obj_box(o, i0, i1);
    if axis == 0 {
        b.min.x
    } else if axis == 1 {
        b.min.y
    } else {
        b.min.z
    }
}

/// Non-decreasing keys along the sequence.
pub open spec fn sorted_by_key(s: Seq<Object>, axis: int, i0: int, i1: int) -> bool {
    forall|i: int, j: int|
        0 <= i < j < s.len() ==> obj_key(#[trigger] s[i], axis, i0, i1) <= obj_key(
            #[trigger] s[j],
            axis,
            i0,
            i1,
        )
}

/// Every object is well-formed and box-computable over the span.
pub open spec fn objs_buildable(s: Seq<Object>, i0: int, i1: int) -> bool {
    forall|i: int| 0 <= i < s.len() ==> obj_wf(#[trigger] s[i]) && obj_box_pre(s[i], i0, i1)
}

/// The builder's comparison key of one object.
fn box_key(o: &Object, axis: i64, interval: Interval) -> (r: i64)
    requires
        obj_wf(*o),
        scalar_ok(interval.start_s()),
        scalar_ok(interval.end_s()),
        obj_box_pre(*o, interval.start_s(), interval.end_s()),
        0 <= axis < 3,
    ensures
        r as int == obj_key(*o, axis as int, interval.start_s(), interval.end_s()),
{
    let b = o.bounding_box(interval).unwrap();
    let m = b.min();
    if axis == 0 {
        m.x()
    } else if axis == 1 {
        m.y()
    } else {
        m.z()
    }
}

/// Exchanging two positions keeps the objects of a sequence.
proof fn lemma_swap_multiset(s: Seq<Object>, i: int, j: int)
    requires
        0 <= i < s.len(),
        0 <= j < s.len(),
        i != j,
    ensures
        s.update(i, s[j]).update(j, s[i]).to_multiset() == s.to_multiset(),
{
    broadcast use vstd::seq_lib::group_to_multiset_ensures;
    broadcast use vstd::seq_lib::to_multiset_update;

    let s1 = s.update(i, s[j]);
    let s2 = s1.update(j, s[i]);
    assert(s1[j] == s[j]);
    assert(s1.to_multiset() == s.to_multiset().insert(s[j]).remove(s[i]));
    assert(s2.to_multiset() == s1.to_multiset().insert(s[i]).remove(s1[j]));
    assert(s.to_multiset().contains(s[i]));
    assert(s2.to_multiset() =~= s.to_multiset());
}

/// Insertion sort by the box key along one axis: the same objects, in
/// non-decreasing key order.
fn sort_objects(v: &mut Vec<Object>, axis: i64, interval: Interval)
    requires
        0 <= axis < 3,
        scalar_ok(interval.start_s()),
        scalar_ok(interval.end_s()),
        objs_buildable(old(v)@, interval.start_s(), interval.end_s()),
    ensures
        final(v)@.to_multiset() == old(v)@.to_multiset(),
        final(v)@.len() == old(v)@.len(),
        sorted_by_key(final(v)@, axis as int, interval.start_s(), interval.end_s()),
        objs_buildable(final(v)@, interval.start_s(), interval.end_s()),
{
    let ghost gi0 = interval.start_s();
    let ghost gi1 = interval.end_s();
    if v.len() < 2 {
        return;
    }
    let n = v.len();
    let mut i: usize = 1;
    while i < n
        invariant
            1 <= i <= n,
            n >= 2,
            n == v@.len(),
            v@.to_multiset() == old(v)@.to_multiset(),
            objs_buildable(v@, gi0, gi1),
            gi0 == interval.start_s(),
            gi1 == interval.end_s(),
            0 <= axis < 3,
            scalar_ok(gi0),
            scalar_ok(gi1),
            sorted_by_key(v@.take(i as int), axis as int, gi0, gi1),
        decreases n - i,
    {
        let mut j: usize = i;
        let mut moving = true;
        proof {
            assert forall|a: int, b: int|
                0 <= a < b <= i as int && b != j as int implies obj_key(
                #[trigger] v@[a],
                axis as int,
                gi0,
                gi1,
            ) <= obj_key(#[trigger] v@[b], axis as int, gi0, gi1) by {
                assert(v@.take(i as int)[a] == v@[a]);
                assert(v@.take(i as int)[b] == v@[b]);
            }
        }
        while moving && j > 0
            invariant
                0 <= j <= i < n,
                n == v@.len(),
                v@.to_multiset() == old(v)@.to_multiset(),
                objs_buildable(v@, gi0, gi1),
                gi0 == interval.start_s(),
                gi1 == interval.end_s(),
                0 <= axis < 3,
                scalar_ok(gi0),
                scalar_ok(gi1),
                forall|a: int, b: int|
                    0 <= a < b <= i as int && b != j as int ==> obj_key(
                        #[trigger] v@[a],
                        axis as int,
                        gi0,
                        gi1,
                    ) <= obj_key(#[trigger] v@[b], axis as int, gi0, gi1),
                !moving && j > 0 ==> obj_key(v@[j as int - 1], axis as int, gi0, gi1) <= obj_key(
                    v@[j as int],
                    axis as int,
                    gi0,
                    gi1,
                ),
            decreases j + (if moving {
                1int
            } else {
                0int
            }),
        {
            let upper = box_key(&v[j - 1], axis, interval);
            let lower = box_key(&v[j], axis, interval);
            if upper > lower {
                let ghost prev = v@;
                let a = v[j - 1];
                let b = v[j];
                v.set(j - 1, b);
                v.set(j, a);
                proof {
                    lemma_swap_multiset(prev, j as int - 1, j as int);
                    assert(v@ =~= prev.update(j as int - 1, prev[j as int]).update(
                        j as int,
                        prev[j as int - 1],
                    ));
                    assert forall|k: int| 0 <= k < v@.len() implies obj_wf(#[trigger] v@[k])
                        && obj_box_pre(v@[k], gi0, gi1) by {
                        if k == j as int - 1 {
                            assert(v@[k] == prev[j as int]);
                        } else if k == j as int {
                            assert(v@[k] == prev[j as int - 1]);
                        } else {
                            assert(v@[k] == prev[k]);
                        }
                    }
                }
                j = j - 1;
            } else {
                moving = false;
            }
        }
        proof {
            assert forall|a: int, b: int| 0 <= a < b <= i as int implies obj_key(
                #[trigger] v@[a],
                axis as int,
                gi0,
                gi1,
            ) <= obj_key(#[trigger] v@[b], axis as int, gi0, gi1) by {
                if b == j as int {
                    if j > 0 {
                        if a < j as int - 1 {
                            assert(obj_key(v@[a], axis as int, gi0, gi1) <= obj_key(
                                v@[j as int - 1],
                                axis as int,
                                gi0,
                                gi1,
                            ));
                        }
                    }
                }
            }
            assert(sorted_by_key(v@.take(i as int + 1), axis as int, gi0, gi1)) by {
                assert forall|a: int, b: int| 0 <= a < b < i as int + 1 implies obj_key(
                    #[trigger] v@.take(i as int + 1)[a],
                    axis as int,
                    gi0,
                    gi1,
                ) <= obj_key(#[trigger] v@.take(i as int + 1)[b], axis as int, gi0, gi1) by {
                    assert(v@.take(i as int + 1)[a] == v@[a]);
                    assert(v@.take(i as int + 1)[b] == v@[b]);
                }
            }
        }
        i = i + 1;
    }
    proof {
        if n > 0 {
            assert(v@.take(n as int) =~= v@);
        }
        broadcast use vstd::seq_lib::group_to_multiset_ensures;

    }
}

/// The box one child claims, computed for the given span.
fn child_box_exec(c: &BvhChild, interval: Interval) -> (r: AABB)
    requires
        child_wf(*c, interval.start_s(), interval.end_s()),
        scalar_ok(interval.start_s()),
        scalar_ok(interval.end_s()),
    ensures
        r@ == child_box(*c, interval.start_s(), interval.end_s()),
{
    match c {
        BvhChild::Leaf(o) => o.bounding_box(interval).unwrap(),
        BvhChild::Node(b) => *b.bounding_box(),
    }
}

/// Build one child over a non-empty group: a single object becomes a
/// leaf, more become a subtree.
fn build_child(objects: &Vec<Object>, interval: Interval) -> (r: BvhChild)
    requires
        objects@.len() >= 1,
        scalar_ok(interval.start_s()),
        scalar_ok(interval.end_s()),
        objs_buildable(objects@, interval.start_s(), interval.end_s()),
    ensures
        child_basic_wf(r),
        child_wf(r, interval.start_s(), interval.end_s()),
        child_objects(r).to_multiset() == objects@.to_multiset(),
    decreases objects@.len(), 1int,
{
    if objects.len() == 1 {
        let o = objects[0];
        let leaf = BvhChild::Leaf(o);
        proof {
            assert(child_objects(leaf) =~= seq![o]);
            assert(objects@ =~= seq![o]);
        }
        leaf
    } else {
        let tree = BVH::from_objects(objects, interval);
        BvhChild::Node(Box::new(tree))
    }
}

impl BVH {
    /// Build a hierarchy over the given objects for the given shutter
    /// span: partition about the midpoint along a randomly chosen axis,
    /// recursively, caching each node's merged box.  A single object is
    /// duplicated as both children of the root; below the root a group of
    /// one becomes a leaf, so for two or more objects the tree's leaves
    /// hold exactly the given objects.
    pub fn from_objects(source_objects: &Vec<Object>, interval: Interval) -> (r: BVH)
        requires
            source_objects@.len() >= 1,
            scalar_ok(interval.start_s()),
            scalar_ok(interval.end_s()),
            objs_buildable(source_objects@, interval.start_s(), interval.end_s()),
        ensures
            bvh_basic_wf(r),
            bvh_wf(r, interval.start_s(), interval.end_s()),
            r.box_s() == box_merge(
                child_box(r.left_s(), interval.start_s(), interval.end_s()),
                child_box(r.right_s(), interval.start_s(), interval.end_s()),
            ),
            source_objects@.len() >= 2 ==> bvh_objects(r).to_multiset()
                == source_objects@.to_multiset(),
            source_objects@.len() == 1 ==> bvh_objects(r) == seq![
                source_objects@[0],
                source_objects@[0],
            ],
            source_objects@.len() == 2 ==> exists|axis: int|
                0 <= axis < 3 && obj_key(
                    bvh_objects(r)[0],
                    axis,
                    interval.start_s(),
                    interval.end_s(),
                ) <= #[trigger] obj_key(
                    bvh_objects(r)[1],
                    axis,
                    interval.start_s(),
                    interval.end_s(),
                ),
            forall|o: Object| #[trigger] bvh_objects(r).contains(o) <==> source_objects@.contains(
                o,
            ),
        decreases source_objects@.len(), 0int,
    {
        let ghost gi0 = interval.start_s();
        let ghost gi1 = interval.end_s();
        let axis = rand_between(0, 3);
        let object_span = source_objects.len();
        if object_span == 1 {
            let o = source_objects[0];
            let b = o.bounding_box(interval).unwrap();
            let node = BVH { left: BvhChild::Leaf(o), right: BvhChild::Leaf(o), bounding_box: b };
            proof {
                assert(child_objects(node.left) =~= seq![o]);
                assert(bvh_objects(node) =~= seq![o, o]);
                assert(box_merge(b@, b@) == b@);
                assert forall|x: Object| #[trigger] bvh_objects(node).contains(x)
                    <==> source_objects@.contains(x) by {
                    if bvh_objects(node).contains(x) {
                        assert(x == o);
                        assert(source_objects@[0] == o);
                    }
                    if source_objects@.contains(x) {
                        assert(x == o);
                        assert(bvh_objects(node)[0] == o);
                    }
                }
            }
            node
        } else if object_span == 2 {
            let k0 = box_key(&source_objects[0], axis, interval);
            let k1 = box_key(&source_objects[1], axis, interval);
            let first: Object;
            let second: Object;
            if k0 < k1 {
                first = source_objects[0];
                second = source_objects[1];
            } else {
                first = source_objects[1];
                second = source_objects[0];
            }
            let bl = first.bounding_box(interval).unwrap();
            let br = second.bounding_box(interval).unwrap();
            let node = BVH {
                left: BvhChild::Leaf(first),
                right: BvhChild::Leaf(second),
                bounding_box: bl.surrounding_box(&br),
            };
            proof {
                crate::aabb::lemma_merge_contains_both(bl@, br@);
                assert(child_objects(node.left) =~= seq![first]);
                assert(child_objects(node.right) =~= seq![second]);
                assert(bvh_objects(node) =~= seq![first, second]);
                if k0 < k1 {
                    assert(bvh_objects(node) =~= source_objects@);
                } else {
                    lemma_swap_multiset(source_objects@, 0, 1);
                    assert(bvh_objects(node) =~= source_objects@.update(
                        0,
                        source_objects@[1],
                    ).update(1, source_objects@[0]));
                }
                broadcast use vstd::seq_lib::group_to_multiset_ensures;

                assert forall|x: Object| #[trigger] bvh_objects(node).contains(x)
                    <==> source_objects@.contains(x) by {
                    assert(bvh_objects(node).contains(x) ==> bvh_objects(
                        node,
                    ).to_multiset().count(x) > 0);
                    assert(source_objects@.contains(x) ==> source_objects@.to_multiset().count(x)
                        > 0);
                }
                assert(0 <= axis < 3 && obj_key(bvh_objects(node)[0], axis as int, gi0, gi1)
                    <= obj_key(bvh_objects(node)[1], axis as int, gi0, gi1));
            }
            node
        } else {
            let mut vec: Vec<Object> = Vec::new();
            let mut ci: usize = 0;
            while ci < source_objects.len()
                invariant
                    0 <= ci <= source_objects@.len(),
                    vec@ =~= source_objects@.take(ci as int),
                decreases source_objects@.len() - ci,
            {
                vec.push(source_objects[ci]);
                proof {
                    assert(vec@ =~= source_objects@.take(ci as int + 1));
                }
                ci = ci + 1;
            }
            proof {
                assert(vec@ =~= source_objects@);
            }
            sort_objects(&mut vec, axis, interval);
            let mid = vec.len() / 2;
            let mut left_vec: Vec<Object> = Vec::new();
            let mut li: usize = 0;
            while li < mid
                invariant
                    0 <= li <= mid,
                    mid < vec@.len(),
                    left_vec@ =~= vec@.take(li as int),
                decreases mid - li,
            {
                left_vec.push(vec[li]);
                proof {
                    assert(left_vec@ =~= vec@.take(li as int + 1));
                }
                li = li + 1;
            }
            let mut right_vec: Vec<Object> = Vec::new();
            let mut ri: usize = mid;
            while ri < vec.len()
                invariant
                    mid <= ri <= vec@.len(),
                    right_vec@ =~= vec@.subrange(mid as int, ri as int),
                decreases vec@.len() - ri,
            {
                right_vec.push(vec[ri]);
                proof {
                    assert(right_vec@ =~= vec@.subrange(mid as int, ri as int + 1));
                }
                ri = ri + 1;
            }
            proof {
                assert(left_vec@ + right_vec@ =~= vec@);
                assert(objs_buildable(left_vec@, gi0, gi1)) by {
                    assert forall|k: int| 0 <= k < left_vec@.len() implies obj_wf(
                        #[trigger] left_vec@[k],
                    ) && obj_box_pre(left_vec@[k], gi0, gi1) by {
                        assert(left_vec@[k] == vec@[k]);
                    }
                }
                assert(objs_buildable(right_vec@, gi0, gi1)) by {
                    assert forall|k: int| 0 <= k < right_vec@.len() implies obj_wf(
                        #[trigger] right_vec@[k],
                    ) && obj_box_pre(right_vec@[k], gi0, gi1) by {
                        assert(right_vec@[k] == vec@[mid as int + k]);
                    }
                }
            }
            let left_child = build_child(&left_vec, interval);
            let right_child = build_child(&right_vec, interval);
            let ghost lc = left_child;
            let ghost rc = right_child;
            let bl = child_box_exec(&left_child, interval);
            let br = child_box_exec(&right_child, interval);
            let node = BVH {
                left: left_child,
                right: right_child,
                bounding_box: bl.surrounding_box(&br),
            };
            proof {
                crate::aabb::lemma_merge_contains_both(bl@, br@);
                assert(bvh_objects(node) == child_objects(lc) + child_objects(rc));
                vstd::seq_lib::lemma_multiset_commutative(child_objects(lc), child_objects(rc));
                vstd::seq_lib::lemma_multiset_commutative(left_vec@, right_vec@);
                assert(bvh_objects(node).to_multiset() =~= vec@.to_multiset());
                assert(bvh_objects(node).to_multiset() == source_objects@.to_multiset());
                broadcast use vstd::seq_lib::group_to_multiset_ensures;

                assert forall|x: Object| #[trigger] bvh_objects(node).contains(x)
                    <==> source_objects@.contains(x) by {
                    assert(bvh_objects(node).contains(x) ==> bvh_objects(
                        node,
                    ).to_multiset().count(x) > 0);
                    assert(source_objects@.contains(x) ==> source_objects@.to_multiset().count(x)
                        > 0);
                }
            }
            node
        }
    }
}

} // verus!
