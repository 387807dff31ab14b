use falling_everything_core::cell64::{decode_signed_4, encode_signed_4, Cell, MAX_TEMPERATURE};

#[test]
fn signed_nibble_roundtrip() {
    for v in -8..=7 {
        assert_eq!(decode_signed_4(encode_signed_4(v)), v);
    }
}

#[test]
fn field_isolation() {
    let c = Cell::new()
        .with_material(1023)
        .with_temperature(4095)
        .with_lifetime(255)
        .with_variant(3)
        .with_flags(0xFF)
        .with_frame_tracker(3)
        .with_velocity_x(-8)
        .with_velocity_y(7)
        .with_rigid_source_material(999);

    assert_eq!(c.material(), 1023);
    assert_eq!(c.temperature(), 4095);
    assert_eq!(c.lifetime(), 255);
    assert_eq!(c.variant(), 3);
    assert_eq!(c.flags(), 0xFF);
    assert_eq!(c.frame_tracker(), 3);
    assert_eq!(c.velocity_x(), -8);
    assert_eq!(c.velocity_y(), 7);
    assert_eq!(c.rigid_source_material(), 999);
}

#[test]
fn default_is_zero() {
    let c = Cell::new();
    assert_eq!(c.0, 0);
    assert_eq!(c.material(), 0);
    assert_eq!(c.temperature(), 0);
    assert_eq!(c.lifetime(), 0);
}

#[test]
fn setter_mutates_in_place() {
    let mut c = Cell::new().with_material(5);
    assert_eq!(c.material(), 5);
    c.set_temperature(100);
    assert_eq!(c.temperature(), 100);
    assert_eq!(c.material(), 5);
    c.set_lifetime(42);
    assert_eq!(c.lifetime(), 42);
    assert_eq!(c.temperature(), 100);
}

#[test]
fn flag_helpers() {
    let mut c = Cell::new();
    c.or_flags(0b0101);
    assert!(c.has_flag(0b0001));
    assert!(c.has_flag(0b0100));
    assert!(!c.has_flag(0b0010));
    c.clear_flag_bits(0b0001);
    assert!(!c.has_flag(0b0001));
    assert!(c.has_flag(0b0100));
}

#[test]
fn temperature_clamps() {
    let c = Cell::new().with_temperature(9999);
    assert_eq!(c.temperature(), MAX_TEMPERATURE);
}

#[test]
fn velocity_clamps_to_nibble_range() {
    let c = Cell::new().with_velocity_x(100).with_velocity_y(-100);
    assert_eq!(c.velocity_x(), 7);
    assert_eq!(c.velocity_y(), -8);
}

#[test]
fn builders_truncate_ids_and_small_fields() {
    let c = Cell::new().with_material(1024 + 5).with_variant(6).with_frame_tracker(7);
    assert_eq!(c.material(), 5);
    assert_eq!(c.variant(), 2);
    assert_eq!(c.frame_tracker(), 3);
    let d = Cell::new().with_rigid_source_material(2047);
    assert_eq!(d.rigid_source_material(), 1023);
}

#[test]
fn exact_bit_layout() {
    let c = Cell::new().with_material(1).with_temperature(1).with_lifetime(1).with_flags(1);
    assert_eq!(c.0, 1 | (1 << 10) | (1 << 30) | (1 << 40));
}

#[test]
fn setting_one_field_keeps_the_others() {
    let mut c = Cell::new()
        .with_material(7)
        .with_temperature(300)
        .with_velocity_x(-3)
        .with_lifetime(9)
        .with_flags(0x12);
    c.set_velocity_y(5);
    c.set_variant(1);
    c.set_frame_tracker(2);
    c.set_rigid_source_material(44);
    assert_eq!(c.material(), 7);
    assert_eq!(c.temperature(), 300);
    assert_eq!(c.velocity_x(), -3);
    assert_eq!(c.velocity_y(), 5);
    assert_eq!(c.lifetime(), 9);
    assert_eq!(c.flags(), 0x12);
    assert_eq!(c.variant(), 1);
    assert_eq!(c.frame_tracker(), 2);
    assert_eq!(c.rigid_source_material(), 44);
}

#[test]
fn setter_chain_leaves_rigid_source_empty() {
    let c = Cell::new()
        .with_material(5)
        .with_temperature(300)
        .with_flags(0xFF)
        .with_frame_tracker(3)
        .with_lifetime(255);
    assert_eq!(c.rigid_source_material(), 0);
    let mut d = c;
    d.set_material(9);
    d.or_flags(0x0F);
    d.clear_flag_bits(0x01);
    assert_eq!(d.rigid_source_material(), 0);
}
