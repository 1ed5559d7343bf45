use pathtracer::fixed::Fixed;
use pathtracer::sampler::Sampler;
use pathtracer::vec3::Vec3;

fn fx(v: f64) -> Fixed {
    Fixed::from_raw((v * 100_000.0).round() as i32).unwrap()
}

fn vec(x: f64, y: f64, z: f64) -> Vec3 {
    Vec3::new(fx(x), fx(y), fx(z))
}

fn raws(v: Vec3) -> (i32, i32, i32) {
    (v.x.raw(), v.y.raw(), v.z.raw())
}

#[test]
fn test_add() {
    let first_vec = vec(0.1, 0.0, 0.0);
    let second_vec = vec(0.2, 0.0, 0.0);
    assert_eq!(first_vec + second_vec, vec(0.3, 0.0, 0.0));
}

#[test]
fn test_sub() {
    let first_vec = vec(0.1, 0.0, 0.0);
    let second_vec = vec(0.2, 0.0, 0.0);
    assert_eq!(second_vec - first_vec, vec(0.1, 0.0, 0.0));
}

#[test]
fn test_mul() {
    let first_vec = vec(0.1, 0.0, 0.0);
    let second_vec = vec(0.2, 0.0, 0.0);
    assert_eq!(first_vec * second_vec, vec(0.02, 0.0, 0.0));
}

#[test]
fn test_mul_scalar() {
    let first_vec = vec(0.1, 0.0, 0.0);
    let scalar = fx(5.0);
    assert_eq!(first_vec * scalar, vec(0.5, 0.0, 0.0));
}

#[test]
fn test_div() {
    let first_vec = vec(0.1, 0.0, 0.0);
    let scalar = fx(5.0);
    assert_eq!(first_vec / scalar, vec(0.02, 0.0, 0.0));
}

#[test]
fn test_add_assign() {
    let mut first_vec = vec(0.1, 0.0, 0.0);
    let second_vec = vec(0.2, 0.0, 0.0);
    first_vec += second_vec;
    assert_eq!(first_vec, vec(0.3, 0.0, 0.0));
}

#[test]
fn test_sub_assign() {
    let mut first_vec = vec(0.1, 0.0, 0.0);
    let second_vec = vec(0.2, 0.0, 0.0);
    first_vec -= second_vec;
    assert_eq!(first_vec, vec(-0.1, 0.0, 0.0));
}

#[test]
fn test_mul_assign() {
    let mut first_vec = vec(0.1, 0.0, 0.0);
    let scalar = fx(5.0);
    first_vec *= scalar;
    assert_eq!(first_vec, vec(0.5, 0.0, 0.0));
}

#[test]
fn test_div_assign() {
    let mut first_vec = vec(0.1, 0.0, 0.0);
    let scalar = fx(5.0);
    first_vec /= scalar;
    assert_eq!(first_vec, vec(0.02, 0.0, 0.0));
}

#[test]
fn test_length() {
    let first_vec = vec(0.1, 0.1, 0.0);
    assert_eq!(first_vec.length(), fx(0.14142136));
}

#[test]
fn test_length_squared() {
    let first_vec = vec(0.1, 0.2, 0.0);
    assert_eq!(first_vec.length_squared(), fx(0.050000004));
}

#[test]
fn scalar_multiplication_commutes() {
    let v = vec(1.5, -2.25, 0.125);
    let k = fx(-3.3);
    assert_eq!(k * v, v * k);
    assert_eq!(raws(k * v), (-495_000, 742_500, -41_250));
}

#[test]
fn negation_is_exact() {
    let v = vec(10_000.0, -10_000.0, 0.00001);
    assert_eq!(raws(-v), (-1_000_000_000, 1_000_000_000, -1));
    assert_eq!(-(-v), v);
}

#[test]
fn addition_saturates_at_the_limit() {
    let v = vec(10_000.0, -10_000.0, 6_000.0);
    assert_eq!(raws(v + v), (1_000_000_000, -1_000_000_000, 1_000_000_000));
}

#[test]
fn fromi_scales_and_saturates() {
    assert_eq!(raws(Vec3::fromi(1, -2, 20_000)), (100_000, -200_000, 1_000_000_000));
    let v = vec(1.0, 2.0, 3.0);
    assert_eq!(v.from(), v);
}

#[test]
fn dot_and_cross_products() {
    let a = vec(1.0, 2.0, 3.0);
    let b = vec(4.0, 5.0, 6.0);
    assert_eq!(Vec3::dot_product(a, b), fx(32.0));
    assert_eq!(Vec3::dot_wide(a, b), 320_000_000_000);
    assert_eq!(Vec3::cross_product(a, b), vec(-3.0, 6.0, -3.0));
}

#[test]
fn unit_vector_of_a_pythagorean_triple() {
    let v = vec(3.0, 4.0, 0.0);
    assert_eq!(v.length(), fx(5.0));
    assert_eq!(Vec3::unit(v), vec(0.6, 0.8, 0.0));
    assert_eq!(v.normalize(), vec(0.6, 0.8, 0.0));
    assert_eq!(raws(Vec3::unit(vec(1.0, 1.0, 1.0))), (57_735, 57_735, 57_735));
}

#[test]
fn unit_vector_of_zero_is_zero() {
    assert_eq!(Vec3::unit(vec(0.0, 0.0, 0.0)), vec(0.0, 0.0, 0.0));
}

#[test]
fn unit_vector_of_the_smallest_vector() {
    let v = Vec3::new(Fixed::from_raw(1).unwrap(), Fixed::zero(), Fixed::zero());
    assert_eq!(Vec3::unit(v), vec(1.0, 0.0, 0.0));
}

#[test]
fn reflection_about_a_floor() {
    let v = vec(1.0, -1.0, 0.0);
    let n = vec(0.0, 1.0, 0.0);
    assert_eq!(Vec3::reflect(v, n), vec(1.0, 1.0, 0.0));
}

#[test]
fn refraction_into_glass() {
    let uv = Vec3::unit(vec(1.0, -1.0, 0.0));
    let n = vec(0.0, 1.0, 0.0);
    let bent = Vec3::refract(uv, n, fx(1.0), fx(1.5));
    assert_eq!(raws(bent), (47_141, -88_191, 0));
}

#[test]
fn refraction_between_equal_media_goes_straight() {
    let uv = vec(0.0, -1.0, 0.0);
    let n = vec(0.0, 1.0, 0.0);
    assert_eq!(Vec3::refract(uv, n, fx(1.0), fx(1.0)), uv);
}

#[test]
fn equality_is_within_the_smallest_scalar() {
    let a = vec(1.0, 2.0, 3.0);
    let b = Vec3::new(a.x + pathtracer::utils::constants::epsilon(), a.y, a.z);
    assert_eq!(a, a);
    assert_ne!(a, b);
}

#[test]
fn default_vector_is_zero() {
    assert_eq!(Vec3::default(), vec(0.0, 0.0, 0.0));
}

#[test]
fn random_components_lie_in_the_unit_interval() {
    let mut rng = Sampler::new(7);
    for _ in 0..200 {
        let (x, y, z) = raws(Vec3::random(&mut rng));
        assert!((0..100_000).contains(&x));
        assert!((0..100_000).contains(&y));
        assert!((0..100_000).contains(&z));
    }
}

#[test]
fn random_range_components_lie_in_the_range() {
    let mut rng = Sampler::new(11);
    for _ in 0..200 {
        let (x, y, z) = raws(Vec3::random_range(fx(-2.0), fx(3.0), &mut rng));
        assert!((-200_000..300_000).contains(&x));
        assert!((-200_000..300_000).contains(&y));
        assert!((-200_000..300_000).contains(&z));
    }
}

#[test]
fn random_unit_vectors_have_unit_length() {
    let mut rng = Sampler::new(3);
    for _ in 0..200 {
        let v = Vec3::random_unit_vector(&mut rng);
        let lensq = Vec3::dot_wide(v, v);
        assert!((lensq - 10_000_000_000).abs() < 100_000_000, "{:?}", v);
    }
}

#[test]
fn hemisphere_vectors_point_along_the_normal() {
    let mut rng = Sampler::new(5);
    let normal = vec(0.0, 0.0, -1.0);
    for _ in 0..200 {
        let v = Vec3::random_unit_vector_on_hemisphere(normal, &mut rng);
        assert!(Vec3::dot_wide(v, normal) >= 0);
    }
}

#[test]
fn disk_points_lie_in_the_unit_disk() {
    let mut rng = Sampler::new(9);
    for _ in 0..200 {
        let p = Vec3::random_in_unit_disk(&mut rng);
        assert_eq!(p.z, Fixed::zero());
        assert!(Vec3::dot_wide(p, p) < 10_000_000_000);
    }
}

#[test]
fn sampling_is_reproducible_from_the_seed() {
    let mut first = Sampler::new(2024);
    let mut second = Sampler::new(2024);
    for _ in 0..50 {
        assert_eq!(Vec3::random_unit_vector(&mut first), Vec3::random_unit_vector(&mut second));
    }
    assert_eq!(first.seed(), second.seed());
}

#[test]
fn vectors_are_ordered_by_their_first_difference() {
    assert!(vec(1.0, 5.0, 5.0) < vec(2.0, 0.0, 0.0));
    assert!(vec(1.0, 2.0, 9.0) < vec(1.0, 3.0, 0.0));
    assert!(vec(1.0, 2.0, 3.0) < vec(1.0, 2.0, 3.00001));
    assert!(vec(-1.0, 0.0, 0.0) > vec(-1.00001, 9.0, 9.0));
    assert!(vec(1.0, 2.0, 3.0) <= vec(1.0, 2.0, 3.0));
    assert!(vec(1.0, 2.0, 3.0) >= vec(1.0, 2.0, 3.0));
    assert_eq!(
        vec(1.0, 2.0, 3.0).partial_cmp(&vec(1.0, 2.0, 3.0)),
        Some(std::cmp::Ordering::Equal)
    );
    assert_eq!(
        vec(0.0, 1.0, 0.0).partial_cmp(&vec(0.0, 0.5, 7.0)),
        Some(std::cmp::Ordering::Greater)
    );
}

#[test]
fn whole_divisions_of_a_vector() {
    let v = vec(1.0, -2.0, 0.00001);
    assert_eq!(raws(v.over_count(3)), (33_333, -66_667, 0));
    assert_eq!(raws(v.over_count(1)), (100_000, -200_000, 1));
    assert_eq!(raws(v.over_count(4_000_000_000)), (0, 0, 0));
    assert_eq!(raws(v.stepped(150_000, 3)), (50_000, -100_000, 1));
    assert_eq!(raws(v.stepped(-50_000, 1)), (-50_000, 100_000, -1));
    assert_eq!(raws(vec(2.0, 0.0, 0.0).stepped(1199 * 100_000, 1200)), (199_833, 0, 0));
}
