use pathtracer::camera::{Camera, ConfigError};
use pathtracer::fixed::{wide_rdiv, Fixed};
use pathtracer::ray::Ray;
use pathtracer::sampler::Sampler;
use pathtracer::tiles::{assemble, tile_rows};
use pathtracer::utils::constants::infinity;
use pathtracer::utils::helpers::random_f32;
use pathtracer::utils::interval::Interval;
use pathtracer::vec3::Vec3;
use pathtracer::world::material::Material;
use pathtracer::world::scene_object::SceneObject;
use pathtracer::world::scene_object_list::SceneObjectList;
use std::sync::Arc;

fn fx(v: f64) -> Fixed {
    Fixed::from_raw((v * 100_000.0).round() as i32).unwrap()
}

fn vec(x: f64, y: f64, z: f64) -> Vec3 {
    Vec3::new(fx(x), fx(y), fx(z))
}

fn raws(v: Vec3) -> (i32, i32, i32) {
    (v.x.raw(), v.y.raw(), v.z.raw())
}

fn gamma(c: Vec3) -> Vec3 {
    Vec3::new(c.x.sqrt(), c.y.sqrt(), c.z.sqrt())
}

/// A camera at the origin that looks down the negative z axis with a field
/// of view of 90 degrees and no defocus.
fn small_camera(samples_per_pixel: u32, max_depth: u32) -> Camera {
    Camera::new(
        20,
        fx(16.0 / 9.0),
        samples_per_pixel,
        fx(90.0),
        max_depth,
        vec(0.0, 0.0, 0.0),
        vec(0.0, 0.0, -1.0),
        vec(0.0, 1.0, 0.0),
        fx(0.0),
        fx(1.0),
        fx(1.0),
        fx(0.0),
    )
    .unwrap()
}

/// A small sphere in front of the camera on a large sphere as ground.
fn two_spheres() -> SceneObjectList {
    let mut world = SceneObjectList::new();
    world.add(SceneObject::Sphere {
        radius: fx(0.5),
        center: vec(0.0, 0.0, -1.0),
        material: Arc::new(Material::Lambertian { albedo: vec(0.7, 0.3, 0.3) }),
    });
    world.add(SceneObject::Sphere {
        radius: fx(100.0),
        center: vec(0.0, -100.5, -1.0),
        material: Arc::new(Material::Lambertian { albedo: vec(0.8, 0.8, 0.0) }),
    });
    world
}

fn refused(
    image_width: u32,
    aspect_ratio: f64,
    samples_per_pixel: u32,
    vfov: f64,
    lookat: Vec3,
    upvector: Vec3,
    defocus_angle: f64,
    focus_dist: f64,
    half_vfov_tan: f64,
    half_defocus_tan: f64,
) -> Option<ConfigError> {
    Camera::new(
        image_width,
        fx(aspect_ratio),
        samples_per_pixel,
        fx(vfov),
        5,
        vec(0.0, 0.0, 0.0),
        lookat,
        upvector,
        fx(defocus_angle),
        fx(focus_dist),
        fx(half_vfov_tan),
        fx(half_defocus_tan),
    )
    .err()
}

#[test]
fn camera_derives_its_viewport() {
    let cam = small_camera(1, 1);
    assert_eq!(cam.image_width(), 20);
    assert_eq!(cam.image_height(), 11);
    let (u, v, w) = cam.basis();
    assert_eq!(w, vec(0.0, 0.0, 1.0));
    assert_eq!(u, vec(1.0, 0.0, 0.0));
    assert_eq!(v, vec(0.0, 1.0, 0.0));
    assert_eq!(raws(cam.viewport_u()), (363_636, 0, 0));
    assert_eq!(raws(cam.viewport_v()), (0, -200_000, 0));
    assert_eq!(raws(cam.pixel_delta_u()), (18_182, 0, 0));
    assert_eq!(raws(cam.pixel_delta_v()), (0, -18_182, 0));
    assert_eq!(raws(cam.pixel00_origin()), (-172_727, 90_909, -100_000));
    assert_eq!(cam.center(), vec(0.0, 0.0, 0.0));
    assert_eq!(cam.pixel_sample_scale(), fx(1.0));
    assert_eq!(cam.defocus_disk(), (vec(0.0, 0.0, 0.0), vec(0.0, 0.0, 0.0)));
}

#[test]
fn camera_keeps_its_configuration() {
    let cam = Camera::new(
        400,
        fx(2.0),
        10,
        fx(20.0),
        50,
        vec(-2.0, 2.0, 1.0),
        vec(0.0, 0.0, -1.0),
        vec(0.0, 1.0, 0.0),
        fx(10.0),
        fx(3.4),
        fx(0.17633),
        fx(0.08749),
    )
    .unwrap();
    assert_eq!(cam.image_width(), 400);
    assert_eq!(cam.aspect_ratio(), fx(2.0));
    assert_eq!(cam.samples_per_pixel(), 10);
    assert_eq!(cam.vfov(), fx(20.0));
    assert_eq!(cam.max_depth(), 50);
    assert_eq!(cam.camera_position(), vec(-2.0, 2.0, 1.0));
    assert_eq!(cam.lookat(), vec(0.0, 0.0, -1.0));
    assert_eq!(cam.upvector(), vec(0.0, 1.0, 0.0));
    assert_eq!(cam.defocus_angle(), fx(10.0));
    assert_eq!(cam.focus_dist(), fx(3.4));
    assert_eq!(cam.center(), vec(-2.0, 2.0, 1.0));
}

#[test]
fn camera_derives_its_viewport_from_an_oblique_view() {
    let cam = Camera::new(
        400,
        fx(2.0),
        10,
        fx(20.0),
        50,
        vec(-2.0, 2.0, 1.0),
        vec(0.0, 0.0, -1.0),
        vec(0.0, 1.0, 0.0),
        fx(10.0),
        fx(3.4),
        fx(0.17633),
        fx(0.08749),
    )
    .unwrap();
    assert_eq!(cam.image_height(), 200);
    let (u, v, w) = cam.basis();
    assert_eq!(raws(w), (-57_735, 57_735, 57_735));
    assert_eq!(raws(u), (70_711, 0, 70_711));
    assert_eq!(raws(v), (40_825, 81_650, -40_825));
    assert_eq!(raws(cam.viewport_u()), (169_571, 0, 169_571));
    assert_eq!(raws(cam.viewport_v()), (-48_951, -97_902, 48_951));
    assert_eq!(raws(cam.pixel_delta_u()), (424, 0, 424));
    assert_eq!(raws(cam.pixel_delta_v()), (-245, -490, 245));
    assert_eq!(raws(cam.pixel00_origin()), (-63_921, 52_407, -205_227));
    assert_eq!(cam.pixel_sample_scale().raw(), 10_000);
    let (disk_u, disk_v) = cam.defocus_disk();
    assert_eq!(raws(disk_u), (21_034, 0, 21_034));
    assert_eq!(raws(disk_v), (12_144, 24_288, -12_144));
}

#[test]
fn camera_height_is_at_least_one() {
    let cam = Camera::new(
        2,
        fx(16.0),
        1,
        fx(90.0),
        1,
        vec(0.0, 0.0, 0.0),
        vec(0.0, 0.0, -1.0),
        vec(0.0, 1.0, 0.0),
        fx(0.0),
        fx(1.0),
        fx(1.0),
        fx(0.0),
    )
    .unwrap();
    assert_eq!(cam.image_height(), 1);
}

#[test]
fn camera_height_is_at_most_the_largest_count() {
    let cam = Camera::new(
        4_000_000_000,
        Fixed::from_raw(1).unwrap(),
        1,
        fx(90.0),
        1,
        vec(0.0, 0.0, 0.0),
        vec(0.0, 0.0, -1.0),
        vec(0.0, 1.0, 0.0),
        fx(0.0),
        fx(1.0),
        fx(1.0),
        fx(0.0),
    )
    .unwrap();
    assert_eq!(cam.image_width(), 4_000_000_000);
    assert_eq!(cam.image_height(), u32::MAX);
}

#[test]
fn camera_of_any_size_is_accepted() {
    let ahead = vec(0.0, 0.0, -1.0);
    let up = vec(0.0, 1.0, 0.0);
    assert_eq!(refused(10_001, 1.0, 1, 90.0, ahead, up, 0.0, 1.0, 1.0, 0.0), None);
    assert_eq!(refused(u32::MAX, 1.0, 1, 90.0, ahead, up, 0.0, 1.0, 1.0, 0.0), None);
    assert_eq!(refused(20, 0.001, 1, 90.0, ahead, up, 0.0, 1.0, 1.0, 0.0), None);
    assert_eq!(refused(20, 1.0, 10_001, 90.0, ahead, up, 0.0, 1.0, 1.0, 0.0), None);
    assert_eq!(refused(20, 1.0, u32::MAX, 90.0, ahead, up, 0.0, 1.0, 1.0, 0.0), None);
    assert_eq!(refused(20, 1.0, 1, 0.00001, ahead, up, 0.0, 1.0, 0.0, 0.0), None);
    assert_eq!(refused(20, 1.0, 1, 179.99999, ahead, up, 0.0, 1.0, 10_000.0, 0.0), None);
}

#[test]
fn sixteen_to_nine_gives_whole_rows() {
    let just_below = Fixed::from_raw(177_777).unwrap();
    let cam = Camera::new(
        1200,
        just_below,
        1,
        fx(90.0),
        1,
        vec(0.0, 0.0, 0.0),
        vec(0.0, 0.0, -1.0),
        vec(0.0, 1.0, 0.0),
        fx(0.0),
        fx(1.0),
        fx(1.0),
        fx(0.0),
    )
    .unwrap();
    assert_eq!(cam.image_height(), 675);
}

#[test]
fn camera_refuses_a_bad_image_width() {
    let ahead = vec(0.0, 0.0, -1.0);
    let up = vec(0.0, 1.0, 0.0);
    assert_eq!(refused(0, 1.0, 1, 90.0, ahead, up, 0.0, 1.0, 1.0, 0.0), Some(ConfigError::ImageWidth));
    assert_eq!(refused(1, 1.0, 1, 90.0, ahead, up, 0.0, 1.0, 1.0, 0.0), None);
}

#[test]
fn camera_refuses_a_bad_aspect_ratio() {
    let ahead = vec(0.0, 0.0, -1.0);
    let up = vec(0.0, 1.0, 0.0);
    assert_eq!(refused(20, 0.0, 1, 90.0, ahead, up, 0.0, 1.0, 1.0, 0.0), Some(ConfigError::AspectRatio));
    assert_eq!(
        refused(20, -1.5, 1, 90.0, ahead, up, 0.0, 1.0, 1.0, 0.0),
        Some(ConfigError::AspectRatio)
    );
    assert_eq!(refused(20, 0.00001, 1, 90.0, ahead, up, 0.0, 1.0, 1.0, 0.0), None);
}

#[test]
fn camera_refuses_a_bad_number_of_samples() {
    let ahead = vec(0.0, 0.0, -1.0);
    let up = vec(0.0, 1.0, 0.0);
    assert_eq!(
        refused(20, 1.0, 0, 90.0, ahead, up, 0.0, 1.0, 1.0, 0.0),
        Some(ConfigError::SamplesPerPixel)
    );
    assert_eq!(refused(20, 1.0, 1, 90.0, ahead, up, 0.0, 1.0, 1.0, 0.0), None);
}

#[test]
fn camera_refuses_a_bad_field_of_view() {
    let ahead = vec(0.0, 0.0, -1.0);
    let up = vec(0.0, 1.0, 0.0);
    for (vfov, tan) in [(0.0, 1.0), (180.0, 1.0), (-20.0, 1.0), (200.0, 1.0)] {
        assert_eq!(
            refused(20, 1.0, 1, vfov, ahead, up, 0.0, 1.0, tan, 0.0),
            Some(ConfigError::FieldOfView)
        );
    }
}

#[test]
fn camera_refuses_a_bad_defocus_angle() {
    let ahead = vec(0.0, 0.0, -1.0);
    let up = vec(0.0, 1.0, 0.0);
    assert_eq!(
        refused(20, 1.0, 1, 90.0, ahead, up, -0.6, 1.0, 1.0, 0.0),
        Some(ConfigError::DefocusAngle)
    );
    assert_eq!(
        refused(20, 1.0, 1, 90.0, ahead, up, -0.00001, 1.0, 1.0, 0.0),
        Some(ConfigError::DefocusAngle)
    );
    assert_eq!(refused(20, 1.0, 1, 90.0, ahead, up, 0.0, 1.0, 1.0, 0.0), None);
}

#[test]
fn camera_refuses_a_bad_focus_distance() {
    let ahead = vec(0.0, 0.0, -1.0);
    let up = vec(0.0, 1.0, 0.0);
    assert_eq!(
        refused(20, 1.0, 1, 90.0, ahead, up, 0.0, 0.0, 1.0, 0.0),
        Some(ConfigError::FocusDistance)
    );
    assert_eq!(
        refused(20, 1.0, 1, 90.0, ahead, up, 0.0, -3.0, 1.0, 0.0),
        Some(ConfigError::FocusDistance)
    );
}

#[test]
fn camera_refuses_a_degenerate_view() {
    let up = vec(0.0, 1.0, 0.0);
    assert_eq!(
        refused(20, 1.0, 1, 90.0, vec(0.0, 0.0, 0.0), up, 0.0, 1.0, 1.0, 0.0),
        Some(ConfigError::ViewDirection)
    );
    assert_eq!(
        refused(20, 1.0, 1, 90.0, vec(0.0, -5.0, 0.0), up, 0.0, 1.0, 1.0, 0.0),
        Some(ConfigError::ViewDirection)
    );
    assert_eq!(
        refused(20, 1.0, 1, 90.0, vec(0.0, 0.0, -1.0), vec(0.0, 0.0, 0.0), 0.0, 1.0, 1.0, 0.0),
        Some(ConfigError::ViewDirection)
    );
}

#[test]
fn camera_reports_the_first_fault() {
    assert_eq!(
        refused(0, 0.0, 0, 0.0, vec(0.0, 0.0, 0.0), vec(0.0, 0.0, 0.0), -1.0, 0.0, 0.0, -1.0),
        Some(ConfigError::ImageWidth)
    );
    assert_eq!(
        refused(20, 1.0, 0, 0.0, vec(0.0, 0.0, 0.0), vec(0.0, 0.0, 0.0), -1.0, 0.0, 0.0, -1.0),
        Some(ConfigError::SamplesPerPixel)
    );
}

#[test]
fn rays_start_at_the_eye_and_pass_through_their_pixel() {
    let cam = small_camera(1, 1);
    let mut rng = Sampler::new(77);
    let mut replay = Sampler::new(77);
    for j in 0..11u32 {
        for i in 0..20u32 {
            let ray = cam.get_ray(i, j, &mut rng);
            let dx = random_f32(&mut replay).raw() as i64 - 50_000;
            let dy = random_f32(&mut replay).raw() as i64 - 50_000;
            let target = cam.pixel00_origin()
                + cam.viewport_u().stepped(i as i64 * 100_000 + dx, 20)
                + cam.viewport_v().stepped(j as i64 * 100_000 + dy, 11);
            assert_eq!(ray.origin(), cam.center());
            assert_eq!(ray.direction(), target - cam.center());
            assert_eq!(rng.seed(), replay.seed());
            let x = ray.direction().x.raw();
            assert!(x >= -172_727 + 18_182 * i as i32 - 9_092);
            assert!(x <= -172_727 + 18_182 * i as i32 + 9_092);
        }
    }
}

#[test]
fn sample_points_do_not_drift_across_a_wide_image() {
    let cam = Camera::new(
        1200,
        fx(1.0),
        1,
        fx(90.0),
        1,
        vec(0.0, 0.0, 0.0),
        vec(0.0, 0.0, -1.0),
        vec(0.0, 1.0, 0.0),
        fx(0.0),
        fx(1.0),
        fx(1.0),
        fx(0.0),
    )
    .unwrap();
    assert_eq!(raws(cam.viewport_u()), (200_000, 0, 0));
    assert_eq!(raws(cam.pixel_delta_u()), (167, 0, 0));
    assert_eq!(raws(cam.pixel00_origin()), (-99_917, 99_917, -100_000));
    let mut rng = Sampler::new(1);
    for _ in 0..50 {
        let mut replay = Sampler::new(rng.seed());
        let ray = cam.get_ray(1199, 0, &mut rng);
        let dx = random_f32(&mut replay).raw() as i64 - 50_000;
        // the centre of the last pixel lies half a pixel left of the edge
        let expected = -99_917 + ((1199 * 100_000 + dx) * 200_000 + 60_000_000) / 120_000_000;
        assert_eq!(ray.direction().x.raw() as i64, expected);
        assert!((ray.direction().x.raw() - 99_917).abs() <= 84);
    }
}

#[test]
fn rays_start_on_the_defocus_disk() {
    let cam = Camera::new(
        20,
        fx(1.0),
        1,
        fx(90.0),
        1,
        vec(0.0, 0.0, 0.0),
        vec(0.0, 0.0, -1.0),
        vec(0.0, 1.0, 0.0),
        fx(10.0),
        fx(2.0),
        fx(1.0),
        fx(0.25),
    )
    .unwrap();
    let (disk_u, disk_v) = cam.defocus_disk();
    assert_eq!(disk_u, vec(0.5, 0.0, 0.0));
    assert_eq!(disk_v, vec(0.0, 0.5, 0.0));
    let mut rng = Sampler::new(5);
    let mut off_centre = 0;
    for _ in 0..100 {
        let mut replay = Sampler::new(rng.seed());
        let ray = cam.get_ray(3, 4, &mut rng);
        random_f32(&mut replay);
        random_f32(&mut replay);
        let p = Vec3::random_in_unit_disk(&mut replay);
        let origin = cam.center() + disk_u * p.x + disk_v * p.y;
        assert_eq!(ray.origin(), origin);
        assert_eq!(rng.seed(), replay.seed());
        assert!(Vec3::dot_wide(origin, origin) <= 2_500_000_000);
        assert_eq!(origin.z, Fixed::zero());
        if origin != cam.center() {
            off_centre += 1;
        }
    }
    assert!(off_centre > 90);
    let mut rng = Sampler::new(5);
    let mut replay = Sampler::new(5);
    let p = Vec3::random_in_unit_disk(&mut replay);
    assert_eq!(cam.defocus_disk_sample(&mut rng), cam.center() + disk_u * p.x + disk_v * p.y);
}

#[test]
fn sky_is_blue_above_and_white_below() {
    assert_eq!(Camera::sky_color(vec(0.0, 1.0, 0.0)), vec(0.5, 0.7, 1.0));
    assert_eq!(Camera::sky_color(vec(0.0, -1.0, 0.0)), vec(1.0, 1.0, 1.0));
    assert_eq!(Camera::sky_color(vec(1.0, 0.0, 0.0)), vec(0.75, 0.85, 1.0));
    assert_eq!(Camera::sky_color(vec(0.0, 25.0, 0.0)), vec(0.5, 0.7, 1.0));
    assert_eq!(Camera::sky_color(vec(0.0, 0.0, 0.0)), vec(0.75, 0.85, 1.0));
}

#[test]
fn escaping_ray_sees_the_sky_whatever_its_origin() {
    let cam = small_camera(1, 5);
    let world = two_spheres();
    let direction = vec(0.2, 1.0, -0.3);
    for origin in [vec(0.0, 0.0, 0.0), vec(5.0, 1.0, 2.0), vec(-3.0, 40.0, 9.0)] {
        let ray = Ray::new(origin, direction);
        assert!(world.hit(&ray, Interval::new(fx(0.001), infinity())).is_none());
        let mut rng = Sampler::new(1);
        assert_eq!(cam.ray_color(&ray, 5, &world, &mut rng), Camera::sky_color(direction));
        assert_eq!(rng.seed(), 1);
    }
}

#[test]
fn ray_without_bounces_is_black() {
    let cam = small_camera(1, 0);
    let world = two_spheres();
    let ray = Ray::new(vec(0.0, 0.0, 0.0), vec(0.0, 1.0, 0.0));
    let mut rng = Sampler::new(1);
    assert_eq!(cam.ray_color(&ray, 0, &world, &mut rng), vec(0.0, 0.0, 0.0));
}

#[test]
fn ray_that_uses_up_its_bounces_is_black() {
    let cam = small_camera(1, 1);
    let world = two_spheres();
    let ray = Ray::new(vec(0.0, 0.0, 0.0), vec(0.0, 0.0, -1.0));
    let mut rng = Sampler::new(1);
    assert_eq!(cam.ray_color(&ray, 1, &world, &mut rng), vec(0.0, 0.0, 0.0));
    assert_ne!(rng.seed(), 1);
}

#[test]
fn ray_that_bounces_once_is_tinted_by_the_albedo() {
    let cam = small_camera(1, 2);
    let world = two_spheres();
    let ray = Ray::new(vec(0.0, 0.0, 0.0), vec(0.0, 0.0, -1.0));
    let mut seen = 0;
    for seed in 0..100 {
        let mut rng = Sampler::new(seed);
        let mut replay = Sampler::new(seed);
        let color = cam.ray_color(&ray, 2, &world, &mut rng);
        let bounce = vec(0.0, 0.0, 1.0) + Vec3::random_unit_vector(&mut replay);
        let second = Ray::new(vec(0.0, 0.0, -0.5), bounce);
        if world.hit(&second, Interval::new(fx(0.001), infinity())).is_none() {
            let tint = vec(1.0, 1.0, 1.0) * vec(0.7, 0.3, 0.3);
            assert_eq!(color, tint * Camera::sky_color(bounce));
            seen += 1;
        } else {
            assert_eq!(color, vec(0.0, 0.0, 0.0));
        }
    }
    assert!(seen > 10);
}

#[test]
fn top_row_of_a_render_is_the_sky() {
    let cam = small_camera(1, 1);
    let world = two_spheres();
    let mut pixels = cam.tile_buffer((0, 11));
    assert_eq!(pixels.len(), 220);
    let mut rng = Sampler::new(2024);
    let mut replay = Sampler::new(2024);
    cam.render(&world, (0, 20), (0, 11), &mut pixels, &mut rng);
    for x in 0..20 {
        let ray = cam.get_ray(x, 0, &mut replay);
        assert!(world.hit(&ray, Interval::new(fx(0.001), infinity())).is_none());
        assert_eq!(pixels[x as usize], gamma(Camera::sky_color(ray.direction())));
    }
    let centre = pixels[5 * 20 + 10];
    assert_eq!(centre, vec(0.0, 0.0, 0.0));
}

#[test]
fn render_is_reproducible_from_the_seed() {
    let cam = small_camera(4, 6);
    let world = two_spheres();
    let mut first = cam.tile_buffer((0, 11));
    let mut second = cam.tile_buffer((0, 11));
    let mut rng_first = Sampler::new(31_337);
    let mut rng_second = Sampler::new(31_337);
    cam.render(&world, (0, 20), (0, 11), &mut first, &mut rng_first);
    cam.render(&world, (0, 20), (0, 11), &mut second, &mut rng_second);
    assert_eq!(first, second);
    assert_eq!(rng_first.seed(), rng_second.seed());
    let mut third = cam.tile_buffer((0, 11));
    cam.render(&world, (0, 20), (0, 11), &mut third, &mut Sampler::new(31_338));
    assert_ne!(first, third);
}

#[test]
fn render_of_tiles_equals_their_pixels() {
    let cam = small_camera(2, 4);
    let world = two_spheres();
    let mut tile = cam.tile_buffer((4, 7));
    assert_eq!(tile.len(), 60);
    let mut rng = Sampler::new(8);
    cam.render(&world, (0, 20), (4, 7), &mut tile, &mut rng);
    let mut replay = Sampler::new(8);
    for y in 4..7u32 {
        for x in 0..20u32 {
            let expected = cam.render_pixel(&world, x, y, &mut replay);
            assert_eq!(tile[(y as usize - 4) * 20 + x as usize], expected);
        }
    }
    assert_eq!(rng.seed(), replay.seed());
}

#[test]
fn render_leaves_the_rest_of_the_buffer() {
    let cam = small_camera(1, 3);
    let world = two_spheres();
    let marker = vec(9.0, 9.0, 9.0);
    let mut pixels = vec![marker; 3 * 20 + 5];
    let mut rng = Sampler::new(8);
    cam.render(&world, (5, 15), (2, 4), &mut pixels, &mut rng);
    for (k, pixel) in pixels.iter().enumerate() {
        let (row, column) = (k / 20, k % 20);
        if row < 2 && (5..15).contains(&column) {
            assert_ne!(*pixel, marker);
        } else {
            assert_eq!(*pixel, marker);
        }
    }
}

#[test]
fn pixel_is_the_mean_of_its_samples() {
    let cam = small_camera(3, 4);
    let world = two_spheres();
    let mut rng = Sampler::new(123);
    let mut replay = Sampler::new(123);
    let pixel = cam.render_pixel(&world, 7, 2, &mut rng);
    let mut sum = (0i128, 0i128, 0i128);
    for _ in 0..3 {
        let ray = cam.get_ray(7, 2, &mut replay);
        let color = cam.ray_color(&ray, 4, &world, &mut replay);
        sum.0 += color.x.raw() as i128;
        sum.1 += color.y.raw() as i128;
        sum.2 += color.z.raw() as i128;
    }
    let mean = Vec3::new(
        Fixed::saturating(wide_rdiv(sum.0, 3)),
        Fixed::saturating(wide_rdiv(sum.1, 3)),
        Fixed::saturating(wide_rdiv(sum.2, 3)),
    );
    assert_eq!(pixel, gamma(mean));
    assert_eq!(rng.seed(), replay.seed());
}

#[test]
fn empty_scene_renders_the_sky_whatever_the_number_of_samples() {
    let world = SceneObjectList::new();
    for samples in [1u32, 3, 7, 300, 9523] {
        let cam = Camera::new(
            2,
            fx(1.0),
            samples,
            fx(90.0),
            1,
            vec(0.0, 0.0, 0.0),
            vec(0.0, 0.0, -1.0),
            vec(0.0, 1.0, 0.0),
            fx(0.0),
            fx(1.0),
            fx(1.0),
            fx(0.0),
        )
        .unwrap();
        let mut pixels = cam.tile_buffer((0, 2));
        cam.render(&world, (0, 2), (0, 2), &mut pixels, &mut Sampler::new(samples as u64));
        for pixel in &pixels {
            assert_eq!(pixel.z, fx(1.0));
            assert!((70_710..=100_000).contains(&pixel.x.raw()));
            assert!((83_666..=100_000).contains(&pixel.y.raw()));
        }
    }
}

#[test]
fn sample_scale_is_one_over_the_number_of_samples() {
    for (samples, scale) in [(1u32, 100_000), (3, 33_333), (300, 333), (1_000_000, 0)] {
        let cam = Camera::new(
            2,
            fx(1.0),
            samples,
            fx(90.0),
            1,
            vec(0.0, 0.0, 0.0),
            vec(0.0, 0.0, -1.0),
            vec(0.0, 1.0, 0.0),
            fx(0.0),
            fx(1.0),
            fx(1.0),
            fx(0.0),
        )
        .unwrap();
        assert_eq!(cam.pixel_sample_scale().raw(), scale);
    }
}

#[test]
fn render_takes_rows_beyond_the_image() {
    let cam = small_camera(1, 2);
    let world = two_spheres();
    let mut pixels = cam.tile_buffer((10, 13));
    assert_eq!(pixels.len(), 60);
    let mut rng = Sampler::new(4);
    let mut replay = Sampler::new(4);
    cam.render(&world, (0, 20), (10, 13), &mut pixels, &mut rng);
    for y in 10..13u32 {
        for x in 0..20u32 {
            let expected = cam.render_pixel(&world, x, y, &mut replay);
            assert_eq!(pixels[(y as usize - 10) * 20 + x as usize], expected);
        }
    }
}

#[test]
fn faults_are_described_in_words() {
    assert_eq!(ConfigError::ImageWidth.message(), "the image width must not be zero");
    assert_eq!(ConfigError::FocusDistance.message(), "the focus distance must be positive");
    let all = [
        ConfigError::ImageWidth,
        ConfigError::AspectRatio,
        ConfigError::SamplesPerPixel,
        ConfigError::FieldOfView,
        ConfigError::DefocusAngle,
        ConfigError::FocusDistance,
        ConfigError::ViewDirection,
    ];
    for (i, first) in all.iter().enumerate() {
        for second in &all[i + 1..] {
            assert_ne!(first.message(), second.message());
        }
    }
}

#[test]
fn image_of_tiles_is_the_image_in_rows() {
    let cam = small_camera(1, 3);
    let world = two_spheres();
    let seeds = [11u64, 22, 33];
    let mut tiles = Vec::new();
    for (i, seed) in seeds.iter().enumerate() {
        let rows = tile_rows(cam.image_height() as usize, seeds.len(), i);
        let mut buffer = cam.tile_buffer(rows);
        cam.render(&world, (0, 20), rows, &mut buffer, &mut Sampler::new(*seed));
        tiles.push(buffer);
    }
    let image = assemble(&tiles);
    assert_eq!(image.len(), 20 * 11);
    for (i, seed) in seeds.iter().enumerate() {
        let rows = tile_rows(cam.image_height() as usize, seeds.len(), i);
        let mut replay = Sampler::new(*seed);
        for y in rows.0..rows.1 {
            for x in 0..20 {
                let expected = cam.render_pixel(&world, x as u32, y as u32, &mut replay);
                assert_eq!(image[y * 20 + x], expected);
            }
        }
    }
}

#[test]
fn camera_basis_has_unit_length_up_to_rounding() {
    let cam = Camera::new(
        400,
        fx(2.0),
        10,
        fx(20.0),
        50,
        vec(-2.0, 2.0, 1.0),
        vec(0.0, 0.0, -1.0),
        vec(0.0, 1.0, 0.0),
        fx(10.0),
        fx(3.4),
        fx(0.17633),
        fx(0.08749),
    )
    .unwrap();
    let (u, _, w) = cam.basis();
    for axis in [u, w] {
        let lensq = Vec3::dot_wide(axis, axis);
        assert!(lensq >= 9_999_700_000);
        assert!(lensq <= 10_000_500_001);
    }
}
