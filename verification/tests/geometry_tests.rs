use pathtracer::fixed::Fixed;
use pathtracer::ray::Ray;
use pathtracer::utils::constants::infinity;
use pathtracer::utils::interval::Interval;
use pathtracer::vec3::Vec3;
use pathtracer::world::hit_record::HitRecord;
use pathtracer::world::material::Material;
use pathtracer::world::scene_object::SceneObject;
use pathtracer::world::scene_object_list::SceneObjectList;
use std::sync::Arc;

fn fx(v: f64) -> Fixed {
    Fixed::from_raw((v * 100_000.0).round() as i32).unwrap()
}

fn vec(x: f64, y: f64, z: f64) -> Vec3 {
    Vec3::new(fx(x), fx(y), fx(z))
}

fn grey() -> Arc<Material> {
    Arc::new(Material::Lambertian { albedo: vec(0.5, 0.5, 0.5) })
}

fn sphere(center: Vec3, radius: f64) -> SceneObject {
    SceneObject::Sphere { radius: fx(radius), center, material: grey() }
}

fn cylinder(center: Vec3, radius: f64, height: f64) -> SceneObject {
    SceneObject::Cylinder { radius: fx(radius), center, height: fx(height), material: grey() }
}

fn forward() -> Interval {
    Interval::new(fx(0.001), infinity())
}

#[test]
fn ray_points_and_parts() {
    let ray = Ray::new(vec(1.0, 2.0, 3.0), vec(0.5, 0.0, -1.0));
    assert_eq!(ray.origin(), vec(1.0, 2.0, 3.0));
    assert_eq!(ray.direction(), vec(0.5, 0.0, -1.0));
    assert_eq!(ray.at(fx(0.0)), vec(1.0, 2.0, 3.0));
    assert_eq!(ray.at(fx(2.0)), vec(2.0, 2.0, 1.0));
    assert_eq!(ray.at(fx(-1.5)), vec(0.25, 2.0, 4.5));
    assert_eq!(Ray::default().direction(), vec(0.0, 0.0, 0.0));
}

#[test]
fn sphere_hit_head_on() {
    let ball = sphere(vec(0.0, 0.0, -1.0), 0.5);
    let ray = Ray::new(vec(0.0, 0.0, 0.0), vec(0.0, 0.0, -1.0));
    let rec = ball.hit(&ray, forward()).unwrap();
    assert_eq!(rec.t, fx(0.5));
    assert_eq!(rec.p, vec(0.0, 0.0, -0.5));
    assert_eq!(rec.normal, vec(0.0, 0.0, 1.0));
    assert!(rec.front_face);
}

#[test]
fn sphere_far_root_when_the_near_one_is_too_close() {
    let ball = sphere(vec(0.0, 0.0, -1.0), 0.5);
    let ray = Ray::new(vec(0.0, 0.0, 0.0), vec(0.0, 0.0, -1.0));
    let rec = ball.hit(&ray, Interval::new(fx(0.6), infinity())).unwrap();
    assert_eq!(rec.t, fx(1.5));
    assert_eq!(rec.p, vec(0.0, 0.0, -1.5));
    assert_eq!(rec.normal, vec(0.0, 0.0, 1.0));
    assert!(!rec.front_face);
}

#[test]
fn sphere_hit_from_inside_turns_the_normal() {
    let ball = sphere(vec(0.0, 0.0, 0.0), 0.5);
    let ray = Ray::new(vec(0.0, 0.0, 0.0), vec(0.0, 0.0, -1.0));
    let rec = ball.hit(&ray, forward()).unwrap();
    assert_eq!(rec.t, fx(0.5));
    assert_eq!(rec.normal, vec(0.0, 0.0, 1.0));
    assert!(!rec.front_face);
}

#[test]
fn sphere_missed_by_a_ray_that_passes_beside_it() {
    let ball = sphere(vec(0.0, 0.0, -1.0), 0.5);
    let ray = Ray::new(vec(0.0, 1.0, 0.0), vec(0.0, 0.0, -1.0));
    assert!(ball.hit(&ray, forward()).is_none());
}

#[test]
fn sphere_touched_by_a_tangent_ray() {
    let ball = sphere(vec(0.0, 0.0, -1.0), 0.5);
    let ray = Ray::new(vec(0.0, 0.5, 0.0), vec(0.0, 0.0, -1.0));
    let rec = ball.hit(&ray, forward()).unwrap();
    assert_eq!(rec.t, fx(1.0));
    assert_eq!(rec.p, vec(0.0, 0.5, -1.0));
}

#[test]
fn sphere_behind_the_ray_is_not_hit() {
    let ball = sphere(vec(0.0, 0.0, 1.0), 0.5);
    let ray = Ray::new(vec(0.0, 0.0, 0.0), vec(0.0, 0.0, -1.0));
    assert!(ball.hit(&ray, forward()).is_none());
}

#[test]
fn sphere_beyond_the_interval_is_not_hit() {
    let ball = sphere(vec(0.0, 0.0, -1.0), 0.5);
    let ray = Ray::new(vec(0.0, 0.0, 0.0), vec(0.0, 0.0, -1.0));
    assert!(ball.hit(&ray, Interval::new(fx(0.001), fx(0.49999))).is_none());
    assert!(ball.hit(&ray, Interval::new(fx(0.001), fx(0.5))).is_some());
}

#[test]
fn sphere_hit_obliquely() {
    let ball = sphere(vec(0.0, 0.0, -1.0), 0.5);
    let ray = Ray::new(vec(0.0, 0.0, 0.0), vec(0.1, 0.2, -1.0));
    let rec = ball.hit(&ray, forward()).unwrap();
    assert_eq!(rec.t.raw(), 51_336);
    assert_eq!((rec.p.x.raw(), rec.p.y.raw(), rec.p.z.raw()), (5_134, 10_267, -51_336));
    assert_eq!(
        (rec.normal.x.raw(), rec.normal.y.raw(), rec.normal.z.raw()),
        (10_268, 20_534, 97_328)
    );
    assert!(rec.front_face);
}

#[test]
fn ray_without_direction_hits_nothing() {
    let ball = sphere(vec(0.0, 0.0, 0.0), 0.5);
    let ray = Ray::new(vec(0.0, 0.0, 0.0), vec(0.0, 0.0, 0.0));
    assert!(ball.hit(&ray, forward()).is_none());
    let tube = cylinder(vec(0.0, 0.0, 0.0), 0.5, 1.0);
    assert!(tube.hit(&ray, forward()).is_none());
}

#[test]
fn stored_normal_opposes_the_ray() {
    let ball = sphere(vec(0.3, -0.2, -2.0), 0.9);
    let tube = cylinder(vec(-0.4, 0.1, -3.0), 0.7, 2.0);
    for i in -20..20 {
        for j in -20..20 {
            let direction = vec(i as f64 * 0.05, j as f64 * 0.05, -1.0);
            let ray = Ray::new(vec(0.0, 0.0, 0.0), direction);
            for object in [&ball, &tube] {
                for lo in [0.001, 2.0, 3.0] {
                    if let Some(rec) = object.hit(&ray, Interval::new(fx(lo), infinity())) {
                        assert!(Vec3::dot_wide(direction, rec.normal) <= 0);
                        assert!(rec.t.raw() >= fx(lo).raw());
                    }
                }
            }
        }
    }
}

#[test]
fn set_face_normal_keeps_or_turns_the_normal() {
    let ray = Ray::new(vec(0.0, 0.0, 0.0), vec(0.0, 0.0, -1.0));
    let mut rec = HitRecord {
        p: vec(0.0, 0.0, -1.0),
        normal: vec(0.0, 0.0, 0.0),
        t: fx(1.0),
        front_face: false,
        material: grey(),
    };
    rec.set_face_normal(&ray, vec(0.0, 0.0, 1.0));
    assert!(rec.front_face);
    assert_eq!(rec.normal, vec(0.0, 0.0, 1.0));
    rec.set_face_normal(&ray, vec(0.0, 0.0, -1.0));
    assert!(!rec.front_face);
    assert_eq!(rec.normal, vec(0.0, 0.0, 1.0));
    rec.set_face_normal(&ray, vec(1.0, 0.0, 0.0));
    assert!(!rec.front_face);
    assert_eq!(rec.normal, vec(-1.0, 0.0, 0.0));
    assert_eq!(rec.t, fx(1.0));
    assert_eq!(rec.p, vec(0.0, 0.0, -1.0));
}

#[test]
fn cylinder_hit_on_its_side() {
    let tube = cylinder(vec(0.0, 0.0, -2.0), 0.5, 1.0);
    let ray = Ray::new(vec(0.0, 0.0, 0.0), vec(0.0, 0.0, -1.0));
    let rec = tube.hit(&ray, forward()).unwrap();
    assert_eq!(rec.t, fx(1.5));
    assert_eq!(rec.p, vec(0.0, 0.0, -1.5));
    assert_eq!(rec.normal, vec(0.0, 0.0, 1.0));
    assert!(rec.front_face);
}

#[test]
fn cylinder_never_hit_by_a_ray_along_its_axis() {
    for height in [0.1, 1.0, 100.0] {
        let tube = cylinder(vec(0.0, 0.0, -2.0), 0.5, height);
        let outside = Ray::new(vec(3.0, -5.0, -2.0), vec(0.0, 1.0, 0.0));
        assert!(tube.hit(&outside, forward()).is_none());
        let inside = Ray::new(vec(0.1, -5.0, -2.0), vec(0.0, -1.0, 0.0));
        assert!(tube.hit(&inside, forward()).is_none());
    }
}

#[test]
fn cylinder_near_root_at_the_edge_of_the_band() {
    let tube = cylinder(vec(0.0, 0.0, -2.0), 0.5, 1.0);
    let ray = Ray::new(vec(0.0, 2.0, 0.0), vec(0.0, -1.0, -1.0));
    let rec = tube.hit(&ray, forward()).unwrap();
    assert_eq!(rec.t, fx(1.5));
    assert_eq!(rec.p, vec(0.0, 0.5, -1.5));
    assert!(rec.front_face);
}

#[test]
fn cylinder_falls_through_to_the_far_root() {
    let tube = cylinder(vec(0.0, 0.0, -2.0), 0.5, 1.0);
    let ray = Ray::new(vec(0.0, 2.2, 0.0), vec(0.0, -1.0, -1.0));
    let rec = tube.hit(&ray, forward()).unwrap();
    assert_eq!(rec.t, fx(2.5));
    assert_eq!(rec.p, vec(0.0, -0.3, -2.5));
    assert_eq!(rec.normal, vec(0.0, 0.0, 1.0));
    assert!(!rec.front_face);
}

#[test]
fn cylinder_missed_when_both_roots_lie_outside_the_band() {
    let tube = cylinder(vec(0.0, 0.0, -2.0), 0.5, 1.0);
    let ray = Ray::new(vec(0.0, 4.0, 0.0), vec(0.0, -1.0, -1.0));
    assert!(tube.hit(&ray, forward()).is_none());
    let above = Ray::new(vec(0.0, 0.6, 0.0), vec(0.0, 0.0, -1.0));
    assert!(tube.hit(&above, forward()).is_none());
}

#[test]
fn cylinder_missed_by_a_ray_that_passes_beside_it() {
    let tube = cylinder(vec(0.0, 0.0, -2.0), 0.5, 1.0);
    let ray = Ray::new(vec(0.6, 0.0, 0.0), vec(0.0, 0.0, -1.0));
    assert!(tube.hit(&ray, forward()).is_none());
}

#[test]
fn hit_carries_the_material_of_the_primitive() {
    let metal = Arc::new(Material::Metal { albedo: vec(0.7, 0.6, 0.5), fuzz: fx(0.25) });
    let ball = SceneObject::Sphere { radius: fx(0.5), center: vec(0.0, 0.0, -1.0), material: metal };
    let ray = Ray::new(vec(0.0, 0.0, 0.0), vec(0.0, 0.0, -1.0));
    let rec = ball.hit(&ray, forward()).unwrap();
    match *rec.material {
        Material::Metal { albedo, fuzz } => {
            assert_eq!(albedo, vec(0.7, 0.6, 0.5));
            assert_eq!(fuzz, fx(0.25));
        }
        _ => panic!("the material was changed"),
    }
}

#[test]
fn validity_of_primitives() {
    assert!(sphere(vec(0.0, 0.0, 0.0), 0.5).is_valid());
    assert!(!sphere(vec(0.0, 0.0, 0.0), 0.0).is_valid());
    assert!(!sphere(vec(0.0, 0.0, 0.0), -1.0).is_valid());
    assert!(cylinder(vec(0.0, 0.0, 0.0), 0.5, 1.0).is_valid());
    assert!(!cylinder(vec(0.0, 0.0, 0.0), 0.5, 0.0).is_valid());
    assert!(!cylinder(vec(0.0, 0.0, 0.0), 0.0, 1.0).is_valid());
    let glassless = Arc::new(Material::Dielectric { refraction_index: fx(0.0) });
    let ball = SceneObject::Sphere { radius: fx(1.0), center: vec(0.0, 0.0, 0.0), material: glassless };
    assert!(!ball.is_valid());
}

#[test]
fn empty_scene_is_never_hit() {
    let world = SceneObjectList::new();
    let ray = Ray::new(vec(0.0, 0.0, 0.0), vec(0.0, 0.0, -1.0));
    assert!(world.hit(&ray, forward()).is_none());
    assert!(world.is_valid());
}

#[test]
fn scene_grows_and_clears() {
    let mut world = SceneObjectList::new();
    world.add(sphere(vec(0.0, 0.0, -1.0), 0.5));
    world.add(cylinder(vec(0.0, 0.0, -3.0), 0.5, 1.0));
    assert_eq!(world.objects.len(), 2);
    assert!(world.is_valid());
    world.add(sphere(vec(0.0, 0.0, -1.0), 0.0));
    assert!(!world.is_valid());
    world.clear();
    assert_eq!(world.objects.len(), 0);
    assert!(world.is_valid());
}

#[test]
fn scene_returns_the_near_sphere_when_the_far_one_was_added_first() {
    let red = Arc::new(Material::Lambertian { albedo: vec(1.0, 0.0, 0.0) });
    let blue = Arc::new(Material::Lambertian { albedo: vec(0.0, 0.0, 1.0) });
    let mut world = SceneObjectList::new();
    world.add(SceneObject::Sphere { radius: fx(0.5), center: vec(0.0, 0.0, -1.3), material: red });
    world.add(SceneObject::Sphere { radius: fx(0.5), center: vec(0.0, 0.0, -1.0), material: blue });
    let ray = Ray::new(vec(0.0, 0.0, 0.0), vec(0.0, 0.0, -1.0));
    let rec = world.hit(&ray, forward()).unwrap();
    assert_eq!(rec.t, fx(0.5));
    match *rec.material {
        Material::Lambertian { albedo } => assert_eq!(albedo, vec(0.0, 0.0, 1.0)),
        _ => panic!("not the near sphere"),
    }
}

#[test]
fn scene_returns_the_near_sphere_when_it_was_added_first() {
    let red = Arc::new(Material::Lambertian { albedo: vec(1.0, 0.0, 0.0) });
    let blue = Arc::new(Material::Lambertian { albedo: vec(0.0, 0.0, 1.0) });
    let mut world = SceneObjectList::new();
    world.add(SceneObject::Sphere { radius: fx(0.5), center: vec(0.0, 0.0, -1.0), material: blue });
    world.add(SceneObject::Sphere { radius: fx(0.5), center: vec(0.0, 0.0, -1.3), material: red });
    let ray = Ray::new(vec(0.0, 0.0, 0.0), vec(0.0, 0.0, -1.0));
    let rec = world.hit(&ray, forward()).unwrap();
    assert_eq!(rec.t, fx(0.5));
    match *rec.material {
        Material::Lambertian { albedo } => assert_eq!(albedo, vec(0.0, 0.0, 1.0)),
        _ => panic!("not the near sphere"),
    }
}

#[test]
fn scene_gives_a_tie_to_the_later_primitive() {
    let red = Arc::new(Material::Lambertian { albedo: vec(1.0, 0.0, 0.0) });
    let blue = Arc::new(Material::Lambertian { albedo: vec(0.0, 0.0, 1.0) });
    let mut world = SceneObjectList::new();
    world.add(SceneObject::Sphere { radius: fx(0.5), center: vec(0.0, 0.0, -1.0), material: red });
    world.add(SceneObject::Sphere { radius: fx(0.5), center: vec(0.0, 0.0, -1.0), material: blue });
    let ray = Ray::new(vec(0.0, 0.0, 0.0), vec(0.0, 0.0, -1.0));
    let rec = world.hit(&ray, forward()).unwrap();
    match *rec.material {
        Material::Lambertian { albedo } => assert_eq!(albedo, vec(0.0, 0.0, 1.0)),
        _ => panic!("not a sphere of the scene"),
    }
}

#[test]
fn scene_hit_is_the_nearest_of_all_hits() {
    let mut world = SceneObjectList::new();
    let mut objects = Vec::new();
    for k in 0..12 {
        let z = -1.0 - ((k * 7) % 12) as f64 * 0.4;
        let x = ((k * 5) % 7) as f64 * 0.2 - 0.6;
        let object = if k % 2 == 0 {
            sphere(vec(x, 0.0, z), 0.45)
        } else {
            cylinder(vec(x, 0.0, z), 0.3, 1.5)
        };
        objects.push(object.clone());
        world.add(object);
    }
    for i in -10..10 {
        for j in -10..10 {
            let ray = Ray::new(vec(0.0, 0.0, 0.0), vec(i as f64 * 0.07, j as f64 * 0.07, -1.0));
            let nearest = objects
                .iter()
                .filter_map(|o| o.hit(&ray, forward()))
                .map(|rec| rec.t.raw())
                .min();
            assert_eq!(world.hit(&ray, forward()).map(|rec| rec.t.raw()), nearest);
        }
    }
}

#[test]
fn default_record_is_of_no_hit() {
    let rec = HitRecord::default();
    assert_eq!(rec.p, vec(0.0, 0.0, 0.0));
    assert_eq!(rec.normal, vec(0.0, 0.0, 0.0));
    assert_eq!(rec.t, fx(0.0));
    assert!(!rec.front_face);
    match *rec.material {
        Material::Lambertian { albedo } => assert_eq!(albedo, vec(0.0, 0.0, 0.0)),
        _ => panic!("not diffuse"),
    }
}

#[test]
fn stored_normals_have_unit_length_up_to_rounding() {
    let ball = sphere(vec(0.3, -0.2, -2.0), 0.9);
    let tube = cylinder(vec(-0.4, 0.1, -3.0), 0.7, 2.0);
    let mut hits = 0;
    for i in -20..20 {
        for j in -20..20 {
            let direction = Vec3::unit(vec(i as f64 * 0.05, j as f64 * 0.05, -1.0));
            let ray = Ray::new(vec(0.0, 0.0, 0.0), direction);
            for object in [&ball, &tube] {
                if let Some(rec) = object.hit(&ray, forward()) {
                    let lensq = Vec3::dot_wide(rec.normal, rec.normal);
                    assert!((lensq - 10_000_000_000).abs() < 2_000_000, "{:?}", rec);
                    hits += 1;
                }
            }
        }
    }
    assert!(hits > 100);
}

#[test]
fn nearer_root_strikes_from_outside_and_farther_from_inside() {
    let ball = sphere(vec(0.3, -0.2, -2.0), 0.9);
    for i in -6..6 {
        let ray = Ray::new(vec(0.0, 0.0, 0.0), vec(i as f64 * 0.05, -0.1, -1.0));
        let near = ball.hit(&ray, forward()).unwrap();
        assert!(near.front_face);
        let beyond = Interval::new(near.t + fx(0.001), infinity());
        let far = ball.hit(&ray, beyond).unwrap();
        assert!(!far.front_face);
        assert!(far.t.raw() > near.t.raw());
    }
}
