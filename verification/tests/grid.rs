use ocean_fft::error::ConfigurationError;
use ocean_fft::grid::{GridSize, MAX_BITS, MAX_GRID};

#[test]
fn grid_accepts_powers_of_two() {
    for bits in 0..=14u32 {
        let size = GridSize::new(1 << bits).unwrap();
        assert_eq!(size.n(), 1 << bits);
        assert_eq!(size.bits(), bits);
    }
}

#[test]
fn grid_default_size_has_eight_stages() {
    let size = GridSize::new(256).unwrap();
    assert_eq!(size.n(), 256);
    assert_eq!(size.bits(), 8);
}

#[test]
fn grid_rejects_sizes_that_are_no_power_of_two() {
    for n in [0u32, 3, 5, 6, 7, 9, 12, 100, 255, 257, 1000, 0x4001, 0x7fff, u32::MAX] {
        assert_eq!(GridSize::new(n).unwrap_err(), ConfigurationError::GridNotPowerOfTwo);
    }
}

#[test]
fn grid_rejects_powers_of_two_beyond_the_limit() {
    for bits in 15..32u32 {
        assert_eq!(GridSize::new(1 << bits).unwrap_err(), ConfigurationError::GridTooLarge);
    }
}

#[test]
fn grid_limit_is_two_to_the_largest_exponent() {
    assert_eq!(MAX_GRID, 1 << MAX_BITS);
    assert_eq!(GridSize::new(MAX_GRID).unwrap().bits(), MAX_BITS);
}

#[test]
fn grid_sizes_compare_by_value() {
    assert_eq!(GridSize::new(64).unwrap(), GridSize::new(64).unwrap());
    assert_ne!(GridSize::new(64).unwrap(), GridSize::new(128).unwrap());
}
