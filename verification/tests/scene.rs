//! Flat-list and hierarchy aggregates: closest-hit semantics and their
//! agreement.

use pathtracer::bvh::BVH;
use pathtracer::hit::{HitList, Object};
use pathtracer::interval::Interval;
use pathtracer::material::{Lambertian, Material};
use pathtracer::movingsphere::MovingSphere;
use pathtracer::ray::TimeRay3;
use pathtracer::sphere::Sphere;
use pathtracer::vec3::Vec3;

const FULL: i64 = 65536;

fn dull(value: i64) -> Material {
    Material::Lambertian(Lambertian::from_color(Vec3(value, value, value)))
}

fn make_static_scene() -> HitList {
    let material = dull(39322);

    let sphere1 = Sphere::new(Vec3(0, FULL, 0), FULL, material);
    let sphere2 = Sphere::new(Vec3(0, -FULL, 0), FULL, material);

    let mut list = HitList::new();
    list.add(Object::Sphere(sphere1));
    list.add(Object::Sphere(sphere2));

    list
}

fn make_cluttered_scene() -> HitList {
    let mut list = HitList::new();
    list.add(Object::Sphere(Sphere::new(Vec3(0, 0, -4 * FULL), FULL, dull(FULL / 2))));
    list.add(Object::Sphere(Sphere::new(Vec3(0, 0, -8 * FULL), 2 * FULL, dull(FULL / 3))));
    list.add(Object::Sphere(Sphere::new(Vec3(3 * FULL, 0, -6 * FULL), FULL, dull(FULL / 4))));
    list.add(Object::Sphere(Sphere::new(Vec3(-3 * FULL, FULL, -5 * FULL), FULL, dull(FULL / 5))));
    list.add(
        Object::Sphere(Sphere::new(Vec3(0, -101 * FULL, 0), 100 * FULL, dull(FULL / 6))),
    );
    list.add(
        Object::MovingSphere(
            MovingSphere::new(
                Vec3(FULL, FULL, -3 * FULL),
                Vec3(FULL, 2 * FULL, -3 * FULL),
                Interval::new(0, FULL),
                FULL / 2,
                dull(FULL / 7),
            ),
        ),
    );
    list
}

#[test]
fn must_hit_something() {
    let scene = make_static_scene();

    let ray = TimeRay3::new(Vec3(-2 * FULL, 6554, 0), Vec3(5 * FULL, 0, 0), 0);

    let hit = scene.hit(ray, 0, FULL);

    assert!(hit.is_some());
}

#[test]
fn closest_of_overlapping_spheres_wins() {
    let scene = make_cluttered_scene();
    // Straight down the negative z axis the near sphere occludes the far
    // one.
    let ray = TimeRay3::new(Vec3(0, 0, 0), Vec3(0, 0, -FULL), 0);

    let hit = scene.hit(ray, 0, 1000 * FULL).expect("the axis ray must strike");

    assert_eq!(3 * FULL, hit.t());
}

#[test]
fn bvh_and_flat_list_agree_on_every_ray() {
    // The core acceleration-structure property: for a fixed scene, the
    // hierarchy and a flat scan report the same closest hit distance.
    let scene = make_cluttered_scene();
    let tree = BVH::from_objects(scene.objects(), Interval::new(0, FULL));

    let origins = [
        Vec3(0, 0, 0),
        Vec3(FULL, FULL, FULL),
        Vec3(-2 * FULL, 6554, 0),
        Vec3(0, 10 * FULL, -6 * FULL),
    ];
    let directions = [
        Vec3(0, 0, -FULL),
        Vec3(13107, 0, -FULL),
        Vec3(-13107, -13107, -FULL),
        Vec3(0, -FULL, 0),
        Vec3(FULL, 0, 0),
        Vec3(0, FULL, 0),
    ];
    let times = [0, FULL / 2, FULL];

    for o in origins.iter() {
        for d in directions.iter() {
            for tm in times.iter() {
                let ray = TimeRay3::new(*o, *d, *tm);
                let from_list = scene.hit(ray, 66, 1000 * FULL).map(|h| h.t());
                let from_tree = tree.hit(ray, 66, 1000 * FULL).map(|h| h.t());
                assert_eq!(from_list, from_tree);
            }
        }
    }
}

#[test]
fn bvh_node_box_bounds_the_scene() {
    let scene = make_static_scene();
    let tree = BVH::from_objects(scene.objects(), Interval::new(0, 0));

    // Each sphere's box is padded by one grid step, so every reportable
    // hit point provably lies inside it.
    let boxed = tree.bounding_box();
    assert_eq!(Vec3(-FULL - 1, -2 * FULL - 1, -FULL - 1), boxed.min());
    assert_eq!(Vec3(FULL + 1, 2 * FULL + 1, FULL + 1), boxed.max());
}

#[test]
fn hitlist_bounding_box_folds_members() {
    let scene = make_static_scene();
    let boxed = scene
        .bounding_box(Interval::new(0, 0))
        .expect("a populated scene has a box");
    assert_eq!(Vec3(-FULL - 1, -2 * FULL - 1, -FULL - 1), boxed.min());
    assert_eq!(Vec3(FULL + 1, 2 * FULL + 1, FULL + 1), boxed.max());

    let empty = HitList::new();
    assert!(empty.bounding_box(Interval::new(0, 0)).is_none());
}

#[test]
fn hitlist_with_and_clear() {
    let sphere = Object::Sphere(Sphere::new(Vec3(0, 0, -2 * FULL), FULL, dull(FULL / 2)));
    let mut list = HitList::with(sphere);

    let ray = TimeRay3::new(Vec3(0, 0, 0), Vec3(0, 0, -FULL), 0);
    assert!(list.hit(ray, 0, 100 * FULL).is_some());

    list.clear();
    assert!(list.hit(ray, 0, 100 * FULL).is_none());
}
