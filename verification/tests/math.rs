use agar_backend::num::isqrt;
use agar_backend::num::pow_nano;
use agar_backend::num::NANO;
use agar_backend::{cos, sin};

const TAU: f64 = std::f64::consts::PI * 2.;

fn sin_approx(v: f64) -> f64 {
    sin((v * 1e9) as i64) as f64 / 1e9
}

fn cos_approx(v: f64) -> f64 {
    cos((v * 1e9) as i64) as f64 / 1e9
}

#[test]
fn test_sin() {
    for x in 0..30 {
        let v = x as f64 / 30. * TAU;
        assert!((sin_approx(v) - v.sin()).abs() < 4e-6);
    }
}

#[test]
fn test_cos() {
    for x in 0..30 {
        let v = x as f64 / 30. * TAU;
        assert!((cos_approx(v) - v.cos()).abs() < 4e-6);
    }
}

#[test]
fn sin_of_negative_angles() {
    for x in 1..30 {
        let v = -(x as f64) / 30. * TAU;
        assert!((sin_approx(v) - v.sin()).abs() < 4e-6);
    }
}

#[test]
fn sin_of_zero_is_zero() {
    assert_eq!(sin(0), 0);
}

#[test]
fn isqrt_exact_values() {
    assert_eq!(isqrt(0), 0);
    assert_eq!(isqrt(1), 1);
    assert_eq!(isqrt(3), 1);
    assert_eq!(isqrt(4), 2);
    assert_eq!(isqrt(34_000_000), 5830);
    assert_eq!(isqrt(7_410_000), 2722);
    assert_eq!(isqrt(u64::MAX as u128 * u64::MAX as u128), u64::MAX);
}

#[test]
fn pow_nano_exact_values() {
    assert_eq!(pow_nano(NANO, 0), NANO);
    assert_eq!(pow_nano(123, 0), NANO);
    assert_eq!(pow_nano(NANO, 7), NANO);
    assert_eq!(pow_nano(0, 1), 0);
    assert_eq!(pow_nano(500_000_000, 1), 500_000_000);
    assert_eq!(pow_nano(500_000_000, 2), 250_000_000);
}
