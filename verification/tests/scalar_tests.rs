use pathtracer::fixed::{wide_isqrt, wide_rdiv, Fixed};
use pathtracer::sampler::Sampler;
use pathtracer::utils::constants::{
    empty, epsilon, infinity, intensity, pi, universe, MAX_OBJECTS_ONSCREEN,
};
use pathtracer::utils::helpers::{degress_to_radians, random_f32, random_f32_with_range};
use pathtracer::utils::interval::Interval;

fn fx(v: f64) -> Fixed {
    Fixed::from_raw((v * 100_000.0).round() as i32).unwrap()
}

#[test]
fn raw_counts_beyond_the_limit_are_refused() {
    assert!(Fixed::from_raw(1_000_000_000).is_some());
    assert!(Fixed::from_raw(-1_000_000_000).is_some());
    assert!(Fixed::from_raw(1_000_000_001).is_none());
    assert!(Fixed::from_raw(-1_000_000_001).is_none());
    assert_eq!(Fixed::from_raw(12_345).unwrap().raw(), 12_345);
}

#[test]
fn saturating_clamps_wide_counts() {
    assert_eq!(Fixed::saturating(5_000_000_000).raw(), 1_000_000_000);
    assert_eq!(Fixed::saturating(-5_000_000_000).raw(), -1_000_000_000);
    assert_eq!(Fixed::saturating(-17).raw(), -17);
    assert_eq!(Fixed::from_int(3).raw(), 300_000);
    assert_eq!(Fixed::from_int(-20_000).raw(), -1_000_000_000);
    assert_eq!(Fixed::from_count(4_000_000_000).raw(), 1_000_000_000);
    assert_eq!(Fixed::from_count(7).raw(), 700_000);
}

#[test]
fn named_scalars() {
    assert_eq!(Fixed::zero().raw(), 0);
    assert_eq!(Fixed::one().raw(), 100_000);
    assert_eq!(Fixed::half().raw(), 50_000);
    assert_eq!(Fixed::default(), Fixed::zero());
    assert_eq!(pi().raw(), 314_159);
    assert_eq!(infinity().raw(), 1_000_000_000);
    assert_eq!(epsilon().raw(), 1);
}

#[test]
fn multiplication_rounds_to_nearest() {
    assert_eq!((fx(0.00001) * fx(0.5)).raw(), 1);
    assert_eq!((fx(-0.00001) * fx(0.5)).raw(), -1);
    assert_eq!((fx(0.00001) * fx(0.49999)).raw(), 0);
    assert_eq!((fx(1.5) * fx(-2.5)).raw(), -375_000);
    assert_eq!((fx(10_000.0) * fx(2.0)).raw(), 1_000_000_000);
}

#[test]
fn division_rounds_to_nearest() {
    assert_eq!((fx(1.0) / fx(3.0)).raw(), 33_333);
    assert_eq!((fx(2.0) / fx(3.0)).raw(), 66_667);
    assert_eq!((fx(-2.0) / fx(3.0)).raw(), -66_667);
    assert_eq!((fx(2.0) / fx(-3.0)).raw(), -66_667);
    assert_eq!((fx(1.0) / fx(500.0)).raw(), 200);
    assert_eq!((fx(10_000.0) / fx(0.5)).raw(), 1_000_000_000);
}

#[test]
fn addition_and_subtraction_saturate() {
    assert_eq!((fx(9_000.0) + fx(2_000.0)).raw(), 1_000_000_000);
    assert_eq!((fx(-9_000.0) - fx(2_000.0)).raw(), -1_000_000_000);
    assert_eq!((fx(1.25) - fx(2.5)).raw(), -125_000);
    assert_eq!((-fx(1.25)).raw(), -125_000);
}

#[test]
fn square_roots_round_down() {
    assert_eq!(fx(2.0).sqrt().raw(), 141_421);
    assert_eq!(fx(0.25).sqrt(), fx(0.5));
    assert_eq!(fx(0.0).sqrt(), fx(0.0));
    assert_eq!(fx(10_000.0).sqrt(), fx(100.0));
}

#[test]
fn square_root_of_a_negative_scalar_is_zero() {
    assert_eq!(fx(-4.0).sqrt(), fx(0.0));
}

#[test]
fn absolute_value_minimum_and_maximum() {
    assert_eq!(fx(-3.5).abs(), fx(3.5));
    assert_eq!(fx(3.5).abs(), fx(3.5));
    assert_eq!(fx(1.0).min(fx(2.0)), fx(1.0));
    assert_eq!(fx(1.0).max(fx(2.0)), fx(2.0));
}

#[test]
fn wide_square_root_at_its_extremes() {
    assert_eq!(wide_isqrt(0), 0);
    assert_eq!(wide_isqrt(1), 1);
    assert_eq!(wide_isqrt(24), 4);
    assert_eq!(wide_isqrt(25), 5);
    assert_eq!(wide_isqrt(u128::MAX), 18_446_744_073_709_551_615);
}

#[test]
fn wide_division_rounds_halves_away_from_zero() {
    assert_eq!(wide_rdiv(5, 2), 3);
    assert_eq!(wide_rdiv(-5, 2), -3);
    assert_eq!(wide_rdiv(5, -2), -3);
    assert_eq!(wide_rdiv(-5, -2), 3);
    assert_eq!(wide_rdiv(4, 3), 1);
    assert_eq!(wide_rdiv(0, 7), 0);
}

#[test]
fn degrees_to_radians() {
    assert_eq!(degress_to_radians(fx(180.0)).raw(), 314_159);
    assert_eq!(degress_to_radians(fx(90.0)).raw(), 157_080);
    assert_eq!(degress_to_radians(fx(25.0)).raw(), 43_633);
    assert_eq!(degress_to_radians(fx(0.0)).raw(), 0);
}

#[test]
fn unit_draws_lie_in_the_unit_interval() {
    let mut rng = Sampler::new(1);
    for _ in 0..1000 {
        let r = random_f32(&mut rng).raw();
        assert!((0..100_000).contains(&r));
    }
}

#[test]
fn range_draws_lie_in_the_range() {
    let mut rng = Sampler::new(1);
    for _ in 0..1000 {
        let r = random_f32_with_range(fx(-1.0), fx(1.0), &mut rng).raw();
        assert!((-100_000..100_000).contains(&r));
    }
}

#[test]
fn unit_draw_scales_the_word_of_the_generator() {
    let mut rng = Sampler::new(99);
    let mut reference = fastrand::Rng::with_seed(99);
    for _ in 0..100 {
        let word = reference.u32(..) as u64;
        assert_eq!(random_f32(&mut rng).raw() as u64, word * 100_000 / 4_294_967_296);
    }
}

#[test]
fn sampler_follows_the_generator() {
    let mut rng = Sampler::new(0x4d59_5df4_d0f3_3173);
    let mut reference = fastrand::Rng::with_seed(0x4d59_5df4_d0f3_3173);
    for _ in 0..100 {
        assert_eq!(rng.next_word(), reference.u32(..));
        assert_eq!(rng.seed(), reference.get_seed());
    }
}

#[test]
fn sampler_advances_its_seed() {
    let mut rng = Sampler::new(42);
    let first = rng.next_word();
    assert_ne!(rng.seed(), 42);
    let second = rng.next_word();
    assert_ne!(first, second);
}

#[test]
fn sampler_continues_from_its_seed() {
    let mut rng = Sampler::new(42);
    rng.next_word();
    let mut resumed = Sampler::new(rng.seed());
    assert_eq!(rng.next_word(), resumed.next_word());
}

#[test]
fn interval_membership() {
    let i = Interval::new(fx(0.001), fx(10.0));
    assert!(i.contains(fx(0.001)));
    assert!(i.contains(fx(10.0)));
    assert!(!i.contains(fx(0.0009)));
    assert!(i.surrounds(fx(0.0009)));
    assert!(i.surrounds(fx(10.00001)));
    assert!(!i.surrounds(fx(0.001)));
    assert!(!i.surrounds(fx(10.0)));
    assert!(i.surrounds_wide(50_000_000_000));
    assert!(!i.surrounds_wide(100));
}

#[test]
fn interval_size_and_clamp() {
    let i = Interval::new(fx(-1.0), fx(4.0));
    assert_eq!(i.size(), fx(5.0));
    assert_eq!(i.clamp(fx(-2.0)), fx(-1.0));
    assert_eq!(i.clamp(fx(5.0)), fx(4.0));
    assert_eq!(i.clamp(fx(0.5)), fx(0.5));
}

#[test]
fn interval_copy_leaves_the_source() {
    let mut i = Interval::new(fx(1.0), fx(2.0));
    let copy = Interval::from(&mut i);
    assert_eq!((copy.min, copy.max), (fx(1.0), fx(2.0)));
    assert_eq!((i.min, i.max), (fx(1.0), fx(2.0)));
}

#[test]
fn universe_holds_everything_and_empty_nothing() {
    assert!(universe().contains(fx(-10_000.0)));
    assert!(universe().contains(fx(10_000.0)));
    assert!(!empty().contains(fx(0.0)));
    assert!(empty().surrounds(fx(0.0)));
}

#[test]
fn intensity_holds_channels_below_one() {
    assert_eq!(intensity().min, fx(0.0));
    assert_eq!(intensity().max, fx(0.999));
    assert_eq!(intensity().clamp(fx(1.0)), fx(0.999));
    assert_eq!(intensity().clamp(fx(-0.5)), fx(0.0));
    assert_eq!(intensity().clamp(fx(0.5)), fx(0.5));
    assert_eq!(MAX_OBJECTS_ONSCREEN, 100);
}
