use ocean_fft::scalar::{Scalar, INFINITY_BITS, ONE_BITS, SIGN_BIT};

fn scalar(value: f32) -> Scalar {
    Scalar::from_bits(value.to_bits())
}

#[test]
fn scalar_keeps_its_bits() {
    for bits in [0u32, 1, 0x3f80_0000, 0x7fc0_0000, 0x8000_0000, u32::MAX] {
        assert_eq!(Scalar::from_bits(bits).to_bits(), bits);
        assert_eq!(Scalar::from_bits(bits), Scalar { bits });
    }
}

#[test]
fn scalar_constants_are_the_patterns_they_name() {
    assert_eq!(ONE_BITS, 1.0f32.to_bits());
    assert_eq!(INFINITY_BITS, f32::INFINITY.to_bits());
    assert_eq!(SIGN_BIT, (-0.0f32).to_bits());
}

#[test]
fn scalar_finite_values() {
    for value in [0.0f32, -0.0, 1.0, -1.0, 0.5, 40.0, f32::MAX, f32::MIN, f32::MIN_POSITIVE, 1e-45] {
        assert!(scalar(value).is_finite());
        assert!(!scalar(value).is_nan());
    }
}

#[test]
fn scalar_infinities_are_not_finite() {
    assert!(!scalar(f32::INFINITY).is_finite());
    assert!(!scalar(f32::NEG_INFINITY).is_finite());
    assert!(!scalar(f32::INFINITY).is_nan());
    assert!(!scalar(f32::NEG_INFINITY).is_nan());
}

#[test]
fn scalar_nans_are_nans() {
    for bits in [0x7fc0_0000u32, 0x7f80_0001, 0x7fff_ffff, 0xffc0_0000, 0xff80_0001, u32::MAX] {
        assert!(f32::from_bits(bits).is_nan());
        assert!(Scalar::from_bits(bits).is_nan());
        assert!(!Scalar::from_bits(bits).is_finite());
        assert!(!Scalar::from_bits(bits).is_positive());
    }
    assert!(scalar(f32::NAN).is_nan());
}

#[test]
fn scalar_positive_is_greater_than_zero() {
    for value in [1.0f32, 0.5, 40.0, f32::MAX, f32::MIN_POSITIVE, 1e-45, f32::INFINITY] {
        assert!(scalar(value).is_positive());
    }
    for value in [0.0f32, -0.0, -1.0, -1e-45, f32::MIN, f32::NEG_INFINITY, f32::NAN] {
        assert!(!scalar(value).is_positive());
    }
}

#[test]
fn scalar_agrees_with_the_machine_on_a_sweep() {
    let mut bits = 0u32;
    loop {
        let value = f32::from_bits(bits);
        let s = Scalar::from_bits(bits);
        assert_eq!(s.is_finite(), value.is_finite());
        assert_eq!(s.is_nan(), value.is_nan());
        assert_eq!(s.is_positive(), value > 0.0);
        match bits.checked_add(0x0003_fffd) {
            Some(next) => bits = next,
            None => break,
        }
    }
}
