//! The scattering model: attenuations, fuzz clamping, and deterministic
//! total internal reflection.

use pathtracer::hitrecord::BasicHitRecord;
use pathtracer::material::{schlick, Dielectric, Lambertian, Metal};
use pathtracer::ray::{Ray3, TimeRay3};
use pathtracer::texture::{SolidColor, Texture};
use pathtracer::vec3::{Vec2, Vec3};

const FULL: i64 = 65536;

fn record_for(direction: Vec3, outward_normal: Vec3) -> BasicHitRecord {
    let ray = Ray3::new(Vec3(0, 0, 0), direction);
    BasicHitRecord::new(Vec3(0, 0, -FULL), FULL, Vec2(0, 0), ray, outward_normal)
}

#[test]
fn solid_color_ignores_the_coordinate() {
    let solid = SolidColor::new(Vec3(13107, 26214, 39321));
    let texture = Texture::Solid(solid);

    assert_eq!(
        Vec3(13107, 26214, 39321),
        texture.value(Vec2(0, 0), Vec3(0, 0, 0))
    );
    assert_eq!(
        Vec3(13107, 26214, 39321),
        texture.value(Vec2(FULL, FULL / 2), Vec3(FULL, -FULL, 3 * FULL))
    );
}

#[test]
fn lambertian_scatter_carries_its_albedo() {
    let albedo = Vec3(26214, 39321, 6554);
    let material = Lambertian::from_color(albedo);
    let in_ray = TimeRay3::new(Vec3(0, 0, 0), Vec3(0, 0, -FULL), 12345);
    let hit = record_for(Vec3(0, 0, -FULL), Vec3(0, 0, FULL));

    let scattered = material.scatter(in_ray, hit).expect("a diffuse surface always scatters");

    assert_eq!(albedo, scattered.attenuation);
    assert_eq!(Vec3(0, 0, -FULL), scattered.ray.origin());
    assert_eq!(12345, scattered.ray.time());
    // The direction is the normal jittered by a unit sample, so it stays
    // within two units of length on each axis.
    let d = scattered.ray.direction();
    assert!(d.0.abs() <= 2 * FULL && d.1.abs() <= 2 * FULL && d.2.abs() <= 2 * FULL);
}

#[test]
fn metal_clamps_its_fuzz() {
    let metal = Metal::new(Vec3(FULL, FULL, FULL), 3 * FULL);
    assert_eq!(FULL, metal.fuzz());

    let gentle = Metal::new(Vec3(FULL, FULL, FULL), FULL / 4);
    assert_eq!(FULL / 4, gentle.fuzz());
    assert_eq!(Vec3(FULL, FULL, FULL), gentle.albedo());
}

#[test]
fn polished_metal_reflects_exactly() {
    let metal = Metal::new(Vec3(FULL, 45875, 39321), 0);
    // A ray falling at forty-five degrees onto a floor facing up.
    let direction = Vec3(FULL, -FULL, 0);
    let in_ray = TimeRay3::new(Vec3(-FULL, FULL, 0), direction, 0);
    let hit = record_for(direction, Vec3(0, FULL, 0));

    let scattered = metal.scatter(in_ray, hit).expect("metal always scatters");

    assert_eq!(Vec3(FULL, 45875, 39321), scattered.attenuation);
    // With no fuzz the outgoing direction is the mirrored unit direction.
    let expected = direction.normalized().reflect(hit.normal());
    assert_eq!(expected, scattered.ray.direction());
}

#[test]
fn dielectric_reports_its_index() {
    let glass = Dielectric::new(98304);
    assert_eq!(98304, glass.refractive_index());
}

#[test]
fn dielectric_always_reflects_past_the_critical_angle() {
    // Glass with index 1.5, left through a grazing exit: the sine of the
    // incidence angle times the index exceeds one, so refraction is
    // impossible and the reflection branch must win regardless of the
    // random draw.
    let glass = Dielectric::new(98304);
    // Outward normal along +z; the ray leaves the glass (back face) at
    // roughly 53 degrees from the normal: sin is 0.8, and 1.5 * 0.8 > 1.
    let direction = Vec3(4 * FULL / 5, 0, 3 * FULL / 5);
    let in_ray = TimeRay3::new(Vec3(0, 0, -FULL), direction, 7);
    let hit = record_for(direction, Vec3(0, 0, FULL));
    assert!(!hit.front_face());

    let expected = direction.normalized().reflect(hit.normal());
    for _ in 0..64 {
        let scattered = glass.scatter(in_ray, hit).expect("a dielectric always scatters");
        assert_eq!(Vec3(FULL, FULL, FULL), scattered.attenuation);
        assert_eq!(expected, scattered.ray.direction());
        assert_eq!(7, scattered.ray.time());
    }
}

#[test]
fn dielectric_takes_both_branches_below_the_critical_angle() {
    // Entering glass at forty-five degrees the Schlick reflectance is a
    // small but real probability: across many draws both the mirrored and
    // the refracted direction must appear.
    let glass = Dielectric::new(98304);
    let direction = Vec3(FULL, -FULL, 0);
    let in_ray = TimeRay3::new(Vec3(-FULL, FULL, 0), direction, 0);
    let hit = record_for(direction, Vec3(0, FULL, 0));
    assert!(hit.front_face());

    let reflected = direction.normalized().reflect(hit.normal());
    let mut saw_reflection = false;
    let mut saw_refraction = false;
    for _ in 0..2000 {
        let scattered = glass.scatter(in_ray, hit).expect("a dielectric always scatters");
        if scattered.ray.direction() == reflected {
            saw_reflection = true;
        } else {
            saw_refraction = true;
        }
    }
    assert!(saw_reflection && saw_refraction);
}

#[test]
fn schlick_reflectance_at_normal_incidence() {
    // Head-on against an interface with matched indices nothing reflects.
    assert_eq!(0, schlick(FULL, FULL));
    // Head-on against glass of index 1.5 the reflectance is (0.2)^2.
    let r = schlick(FULL, 98304);
    let expected = 2621;
    assert!((r - expected).abs() < 16);
}
