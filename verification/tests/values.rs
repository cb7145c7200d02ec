use musicalix::clamped::{ClampedValue, HALF_UNIT, UNIT};
use musicalix::decimal::{u32_to_decimal, u8_to_decimal};
use musicalix::wing::action::pan_to_device;

#[test]
fn construction_clamps_below_and_above() {
    assert_eq!(ClampedValue::new(-1).value(), 0);
    assert_eq!(ClampedValue::new(0).value(), 0);
    assert_eq!(ClampedValue::new(123).value(), 123);
    assert_eq!(ClampedValue::new(UNIT as i64).value(), UNIT);
    assert_eq!(ClampedValue::new(UNIT as i64 + 1).value(), UNIT);
    assert_eq!(ClampedValue::new(1_500_000).value(), UNIT);
}

#[test]
fn set_clamps_like_new() {
    let mut v = ClampedValue::new(0);
    v.set(-7);
    assert_eq!(v.value(), 0);
    v.set(2_000_000);
    assert_eq!(v.value(), UNIT);
    v.set(250_000);
    assert_eq!(v.value(), 250_000);
}

#[test]
fn byte_scalings_hit_exact_values() {
    let half = ClampedValue::new(HALF_UNIT as i64);
    assert_eq!(half.to_u8(), 128);
    assert_eq!(half.to_u16(), 32768);
    let full = ClampedValue::new(UNIT as i64);
    assert_eq!(full.to_u8(), 255);
    assert_eq!(full.to_u16(), 65535);
    assert_eq!(full.to_u24(), 16777215);
    assert_eq!(full.to_u32(), 4294967295);
    let zero = ClampedValue::new(0);
    assert_eq!(zero.to_u8(), 0);
    assert_eq!(zero.to_u32(), 0);
}

#[test]
fn to_bytes_selects_the_width() {
    let full = ClampedValue::new(UNIT as i64);
    assert_eq!(full.to_bytes(1), 255);
    assert_eq!(full.to_bytes(2), 65535);
    assert_eq!(full.to_bytes(3), 16777215);
    assert_eq!(full.to_bytes(4), 4294967295);
}

#[test]
fn lerp_interpolates_and_clamps_parameter() {
    let lo = ClampedValue::new(0);
    let hi = ClampedValue::new(UNIT as i64);
    assert_eq!(lo.lerp(&hi, 0).value(), 0);
    assert_eq!(lo.lerp(&hi, UNIT as i64).value(), UNIT);
    assert_eq!(lo.lerp(&hi, HALF_UNIT as i64).value(), HALF_UNIT);
    // a parameter past the unit range behaves as the clamped endpoint
    assert_eq!(lo.lerp(&hi, 5_000_000).value(), UNIT);
    assert_eq!(lo.lerp(&hi, -5).value(), 0);
}

#[test]
fn default_clamped_value_is_zero() {
    assert_eq!(ClampedValue::default().value(), 0);
}

#[test]
fn pan_maps_unit_interval_onto_signed_percent() {
    assert_eq!(pan_to_device(&ClampedValue::new(0)), -100);
    assert_eq!(pan_to_device(&ClampedValue::new(HALF_UNIT as i64)), 0);
    assert_eq!(pan_to_device(&ClampedValue::new(UNIT as i64)), 100);
    assert_eq!(pan_to_device(&ClampedValue::new(750_000)), 50);
    // truncation is toward zero on both sides of center
    assert_eq!(pan_to_device(&ClampedValue::new(499_999)), 0);
    assert_eq!(pan_to_device(&ClampedValue::new(500_001)), 0);
}

#[test]
fn decimal_rendering_matches_expected_texts() {
    assert_eq!(u32_to_decimal(0), "0");
    assert_eq!(u32_to_decimal(7), "7");
    assert_eq!(u32_to_decimal(10), "10");
    assert_eq!(u32_to_decimal(48), "48");
    assert_eq!(u32_to_decimal(109), "109");
    assert_eq!(u32_to_decimal(4294967295), "4294967295");
    assert_eq!(u8_to_decimal(16), "16");
}
