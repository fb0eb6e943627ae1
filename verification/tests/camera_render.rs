//! Camera rays, the path integrator and the sampling driver.

use pathtracer::camera::{Camera, Options};
use pathtracer::hit::{HitList, Object};
use pathtracer::interval::Interval;
use pathtracer::material::{Lambertian, Material};
use pathtracer::ray::TimeRay3;
use pathtracer::render::{ray_color, render_pixel};
use pathtracer::rng::{rand, rand_between, rand_in_unit_disk, rand_unit_vector};
use pathtracer::sphere::Sphere;
use pathtracer::vec3::Vec3;

const FULL: i64 = 65536;

fn simple_scene() -> HitList {
    let material = Material::Lambertian(Lambertian::from_color(Vec3(FULL / 2, FULL / 2, FULL / 2)));
    let mut list = HitList::new();
    list.add(Object::Sphere(Sphere::new(Vec3(0, 0, -2 * FULL), FULL, material)));
    list
}

fn centered_camera() -> Camera {
    // A ninety-degree vertical field of view has a half-angle tangent of
    // exactly one; square aspect, pinhole aperture.
    let options = Options {
        tan_half_fov: FULL,
        aspect_ratio: FULL,
        aperture: 0,
        focus_distance: FULL,
    };
    Camera::new(
        Vec3(0, 0, 0),
        Vec3(0, 0, -FULL),
        Vec3(0, FULL, 0),
        options,
        Interval::new(0, 0),
    )
}

#[test]
fn center_of_frame_ray_points_down_the_axis() {
    let camera = centered_camera();

    let ray = camera.ray(FULL / 2, FULL / 2);

    assert_eq!(Vec3(0, 0, 0), ray.origin());
    assert_eq!(Vec3(0, 0, -FULL), ray.direction());
}

#[test]
fn corner_rays_span_the_viewport() {
    let camera = centered_camera();

    let lower_left = camera.ray(0, 0);
    assert_eq!(Vec3(-FULL, -FULL, -FULL), lower_left.direction());

    let upper_right = camera.ray(FULL, FULL);
    assert_eq!(Vec3(FULL, FULL, -FULL), upper_right.direction());
}

#[test]
fn depth_zero_returns_black() {
    // The bounce budget alone terminates recursion: at depth zero the
    // integrator yields black whatever the scene holds.
    let scene = simple_scene();
    let ray = TimeRay3::new(Vec3(0, 0, 0), Vec3(0, 0, -FULL), 0);

    assert_eq!(Vec3(0, 0, 0), ray_color(ray, &scene, 0));
    assert_eq!(Vec3(0, 0, 0), ray_color(ray, &scene, -3));

    let empty = HitList::new();
    assert_eq!(Vec3(0, 0, 0), ray_color(ray, &empty, 0));
}

#[test]
fn missed_rays_return_the_sky_gradient() {
    let empty = HitList::new();
    let down_axis = TimeRay3::new(Vec3(0, 0, 0), Vec3(0, 0, -FULL), 0);

    // Looking level: halfway between white and sky blue.
    assert_eq!(Vec3(49152, 55705, FULL), ray_color(down_axis, &empty, 8));

    // Looking straight up: pure sky blue.
    let up = TimeRay3::new(Vec3(0, 0, 0), Vec3(0, FULL, 0), 0);
    assert_eq!(Vec3(32768, 45875, FULL), ray_color(up, &empty, 8));
}

#[test]
fn scattered_light_never_exceeds_full_intensity() {
    let scene = simple_scene();
    for _ in 0..32 {
        let ray = TimeRay3::new(Vec3(0, 0, 0), Vec3(0, 0, -FULL), 0);
        let c = ray_color(ray, &scene, 16);
        assert!(0 <= c.0 && c.0 <= FULL);
        assert!(0 <= c.1 && c.1 <= FULL);
        assert!(0 <= c.2 && c.2 <= FULL);
    }
}

#[test]
fn render_pixel_accumulates_bounded_samples() {
    let scene = simple_scene();
    let camera = centered_camera();

    let samples = 8;
    let c = render_pixel(&camera, &scene, 3, 2, 8, 8, samples, 8);
    assert!(0 <= c.0 && c.0 <= samples as i64 * FULL);
    assert!(0 <= c.1 && c.1 <= samples as i64 * FULL);
    assert!(0 <= c.2 && c.2 <= samples as i64 * FULL);
}

#[test]
fn empty_scene_accumulates_full_blue() {
    // With nothing to strike, every sample is the sky gradient, whose blue
    // channel is exactly full; the accumulator must show every sample.
    let empty = HitList::new();
    let camera = centered_camera();

    let samples = 16;
    let c = render_pixel(&camera, &empty, 1, 1, 4, 4, samples, 8);
    assert_eq!(samples as i64 * FULL, c.2);
}

#[test]
fn camera_shutter_time_stays_in_its_span() {
    let options = Options {
        tan_half_fov: FULL,
        aspect_ratio: FULL,
        aperture: FULL / 8,
        focus_distance: 2 * FULL,
    };
    let camera = Camera::new(
        Vec3(0, 0, 0),
        Vec3(0, 0, -FULL),
        Vec3(0, FULL, 0),
        options,
        Interval::new(FULL, 3 * FULL),
    );

    for _ in 0..32 {
        let ray = camera.ray(FULL / 2, FULL / 2);
        assert!(FULL <= ray.time() && ray.time() < 3 * FULL);
    }
}

#[test]
fn random_draws_vary() {
    // A generator that handed one value back forever would fail this.
    let first = rand_between(0, 1000000);
    let mut saw_other = false;
    for _ in 0..256 {
        if rand_between(0, 1000000) != first {
            saw_other = true;
        }
    }
    assert!(saw_other);
}

#[test]
fn random_draws_stay_in_their_ranges() {
    for _ in 0..64 {
        let r = rand();
        assert!(0 <= r && r < FULL);

        let b = rand_between(-5, 17);
        assert!(-5 <= b && b < 17);

        let d = rand_in_unit_disk();
        assert_eq!(0, d.2);
        assert!(d.sq_length() < FULL);

        let u = rand_unit_vector();
        assert!(u.0.abs() <= FULL && u.1.abs() <= FULL && u.2.abs() <= FULL);
        assert!((u.sq_length() - FULL).abs() <= 64);
    }
}
