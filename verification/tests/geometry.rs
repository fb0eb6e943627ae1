//! Sphere intersection, bounding boxes and the slab test.

use pathtracer::aabb::AABB;
use pathtracer::interval::Interval;
use pathtracer::material::{Lambertian, Material};
use pathtracer::movingsphere::MovingSphere;
use pathtracer::ray::TimeRay3;
use pathtracer::sphere::Sphere;
use pathtracer::vec3::{Vec2, Vec3};

const FULL: i64 = 65536;

fn gray_material() -> Material {
    Material::Lambertian(Lambertian::from_color(Vec3(FULL / 2, FULL / 2, FULL / 2)))
}

#[test]
fn unit_sphere_scenario_reports_exact_hit() {
    // A sphere of radius one half at (0, 0, -1), probed from the origin
    // straight down the negative z axis.
    let sphere = Sphere::new(Vec3(0, 0, -FULL), FULL / 2, gray_material());
    let ray = TimeRay3::new(Vec3(0, 0, 0), Vec3(0, 0, -FULL), 0);

    let hit = sphere.hit(ray, 0, 100 * FULL).expect("the sphere must be struck");

    assert_eq!(FULL / 2, hit.t());
    assert_eq!(Vec3(0, 0, -FULL / 2), hit.point());
    assert_eq!(Vec3(0, 0, FULL), hit.normal());
    assert!(hit.front_face());
}

#[test]
fn sphere_hit_round_trip_lies_on_surface() {
    // Rays built to pass through a surface point strike within a few
    // rounding steps of that point, at the sphere's radius from its centre.
    let center = Vec3(3 * FULL, -2 * FULL, -5 * FULL);
    let radius = 2 * FULL;
    let sphere = Sphere::new(center, radius, gray_material());
    let surface = Vec3(3 * FULL, -2 * FULL, -3 * FULL);
    let origin = Vec3(3 * FULL, -2 * FULL, 4 * FULL);
    let ray = TimeRay3::new(origin, Vec3(0, 0, -FULL), 0);

    let hit = sphere.hit(ray, 0, 100 * FULL).expect("the sphere must be struck");

    let p = hit.point();
    assert!((p.0 - surface.0).abs() < 8);
    assert!((p.1 - surface.1).abs() < 8);
    assert!((p.2 - surface.2).abs() < 8);
    let from_center = p.minus(center);
    assert!((from_center.length() - radius).abs() < 8);
}

#[test]
fn hit_normal_always_faces_the_ray() {
    let sphere = Sphere::new(Vec3(0, 0, -3 * FULL), FULL, gray_material());
    let directions = [
        Vec3(0, 0, -FULL),
        Vec3(FULL / 4, 0, -FULL),
        Vec3(-FULL / 4, FULL / 8, -FULL),
    ];
    for d in directions.iter() {
        let ray = TimeRay3::new(Vec3(0, 0, 0), *d, 0);
        if let Some(hit) = sphere.hit(ray, 0, 100 * FULL) {
            let n = hit.normal();
            assert!(d.dot(n) <= 0);
        }
    }
    // A ray cast from inside the sphere still receives an opposing normal.
    let inside = TimeRay3::new(Vec3(0, 0, -3 * FULL), Vec3(0, 0, -FULL), 0);
    let hit = sphere.hit(inside, 0, 100 * FULL).expect("an inside ray must exit");
    assert!(!hit.front_face());
    assert!(inside.direction().dot(hit.normal()) <= 0);
}

#[test]
fn surrounding_box_contains_both_and_commutes() {
    let a = AABB::new(Vec3(-FULL, 0, 0), Vec3(FULL, FULL, FULL));
    let b = AABB::new(Vec3(0, -FULL, FULL / 2), Vec3(FULL / 2, FULL / 2, 3 * FULL));
    let c = AABB::new(Vec3(-3 * FULL, 0, 0), Vec3(0, 0, 0));

    let merged = a.surrounding_box(&b);
    assert_eq!(Vec3(-FULL, -FULL, 0), merged.min());
    assert_eq!(Vec3(FULL, FULL, 3 * FULL), merged.max());

    // Both arguments fit inside the merge.
    assert!(merged.min().0 <= a.min().0 && a.max().0 <= merged.max().0);
    assert!(merged.min().1 <= b.min().1 && b.max().1 <= merged.max().1);

    // Merging is commutative and associative.
    assert_eq!(merged, b.surrounding_box(&a));
    assert_eq!(
        a.surrounding_box(&b).surrounding_box(&c),
        a.surrounding_box(&b.surrounding_box(&c))
    );
}

#[test]
fn slab_test_accepts_and_rejects() {
    let boxed = AABB::new(Vec3(-FULL, -FULL, -3 * FULL), Vec3(FULL, FULL, -FULL));
    let toward = TimeRay3::new(Vec3(0, 0, 0), Vec3(0, 0, -FULL), 0);
    let away = TimeRay3::new(Vec3(0, 0, 0), Vec3(0, 0, FULL), 0);
    let sideways = TimeRay3::new(Vec3(4 * FULL, 0, 0), Vec3(0, 0, -FULL), 0);

    assert!(boxed.hit(&toward, 0, 100 * FULL));
    assert!(!boxed.hit(&away, 0, 100 * FULL));
    assert!(!boxed.hit(&sideways, 0, 100 * FULL));
    // A window that ends before the box is reached rejects the ray.
    assert!(!boxed.hit(&toward, 0, FULL / 2));
}

#[test]
fn moving_sphere_interpolates_its_centre() {
    let sphere = MovingSphere::new(
        Vec3(0, 0, 0),
        Vec3(2 * FULL, 0, 0),
        Interval::new(0, FULL),
        FULL / 2,
        gray_material(),
    );

    assert_eq!(Vec3(0, 0, 0), sphere.center(0));
    assert_eq!(Vec3(2 * FULL, 0, 0), sphere.center(FULL));
    assert_eq!(Vec3(FULL, 0, 0), sphere.center(FULL / 2));
}

#[test]
fn moving_sphere_is_struck_where_its_time_places_it() {
    let sphere = MovingSphere::new(
        Vec3(0, 0, -2 * FULL),
        Vec3(2 * FULL, 0, -2 * FULL),
        Interval::new(0, FULL),
        FULL / 2,
        gray_material(),
    );
    // At the start of the span the sphere sits on the z axis.
    let early = TimeRay3::new(Vec3(0, 0, 0), Vec3(0, 0, -FULL), 0);
    assert!(sphere.hit(early, 0, 100 * FULL).is_some());

    // At the end of the span it has moved away from the z axis.
    let late = TimeRay3::new(Vec3(0, 0, 0), Vec3(0, 0, -FULL), FULL);
    assert!(sphere.hit(late, 0, 100 * FULL).is_none());

    // A ray aimed at the far position at the late time strikes it.
    let tracking = TimeRay3::new(Vec3(2 * FULL, 0, 0), Vec3(0, 0, -FULL), FULL);
    assert!(sphere.hit(tracking, 0, 100 * FULL).is_some());
}

#[test]
fn get_uv_matches_the_spherical_chart() {
    // The positive first axis sits mid-seam at mid-height: (1/2, 1/2).
    let uv = Sphere::get_uv(Vec3(FULL, 0, 0));
    assert_eq!(Vec2(FULL / 2, FULL / 2), uv);

    // The south pole: polar angle zero.
    let uv2 = Sphere::get_uv(Vec3(0, -FULL, 0));
    assert_eq!(Vec2(FULL / 2, 0), uv2);

    // The north pole: a full half-turn of polar angle.
    let uv3 = Sphere::get_uv(Vec3(0, FULL, 0));
    assert_eq!(Vec2(FULL / 2, FULL), uv3);

    // Looking down the negative third axis: three quarters around.
    let uv4 = Sphere::get_uv(Vec3(0, 0, -FULL));
    assert_eq!(Vec2(3 * FULL / 4, FULL / 2), uv4);

    // An arbitrary direction stays inside the unit square.
    let uv5 = Sphere::get_uv(Vec3(12345, -54321, 23456));
    assert!(0 <= uv5.0 && uv5.0 <= FULL);
    assert!(0 <= uv5.1 && uv5.1 <= FULL);
}

#[test]
fn tangent_ray_reports_the_double_root() {
    // A ray grazing the sphere: the discriminant is exactly zero and the
    // double root is still a hit.
    let sphere = Sphere::new(Vec3(0, 0, -2 * FULL), FULL, gray_material());
    let ray = TimeRay3::new(Vec3(FULL, 0, 0), Vec3(0, 0, -FULL), 0);

    let hit = sphere.hit(ray, 0, 100 * FULL).expect("a grazing ray still touches");

    assert_eq!(2 * FULL, hit.t());
    assert_eq!(Vec3(FULL, 0, -2 * FULL), hit.point());
}

#[test]
fn negative_radius_flips_the_outward_normal() {
    // The hollow-bubble convention: a negative radius inverts the
    // geometric normal without moving the surface.
    let bubble = Sphere::new(Vec3(0, 0, -FULL), -FULL / 2, gray_material());
    let ray = TimeRay3::new(Vec3(0, 0, 0), Vec3(0, 0, -FULL), 0);

    let hit = bubble.hit(ray, 0, 100 * FULL).expect("the bubble must be struck");

    assert_eq!(FULL / 2, hit.t());
    // The geometric outward normal points inward, so the ray arrives from
    // the back face and the stored normal is flipped to oppose it.
    assert!(!hit.front_face());
    assert_eq!(Vec3(0, 0, FULL), hit.normal());
}
