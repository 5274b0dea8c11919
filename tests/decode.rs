use std::convert::TryFrom;

use ut325f::{DecodeError, HoldType, Reading};

const SAMPLE: [u8; Reading::N_BYTES] = [
    0xaa, 0x55, 0x00, 0x34, 0x01, 0x98, 0x94, 0xd5,
    0x41, 0x00, 0x00, 0x00, 0x00, 0x2d, 0x02, 0xd5,
    0x41, 0x6c, 0x25, 0x85, 0x42, 0x00, 0x30, 0x30,
    0x30, 0x98, 0x94, 0xd5, 0x41, 0x00, 0x00, 0x00,
    0x00, 0x2d, 0x02, 0xd5, 0x41, 0x6c, 0x25, 0x85,
    0x42, 0x00, 0x00, 0x00, 0x00, 0x00, 0x80, 0xd2,
    0x41, 0x00, 0x00, 0x00, 0x00, 0x00, 0x0d, 0x15,
];

fn synced_zeros() -> [u8; Reading::N_BYTES] {
    let mut buffer = [0u8; Reading::N_BYTES];
    buffer[..Reading::N_SYNC_BYTES].copy_from_slice(&Reading::SYNC);
    buffer
}

#[test]
fn test_parse_reading_from_bytes() {
    let test_bytes: [u8; Reading::N_BYTES] = SAMPLE;

    let reading_result = Reading::parse(&test_bytes).unwrap();

    assert_eq!(f32::from_bits(reading_result.current_temps_c[0]), 26.697556);
    assert!(f32::from_bits(reading_result.current_temps_c[1]).is_nan());
    assert!(f32::from_bits(reading_result.current_temps_c[2]).is_nan());
    assert!(f32::from_bits(reading_result.current_temps_c[3]).is_nan());

    assert_eq!(f32::from_bits(reading_result.held_temps_c[0]), 26.697556);
    assert_eq!(f32::from_bits(reading_result.held_temps_c[1]), 0.0);
    assert_eq!(f32::from_bits(reading_result.held_temps_c[2]), 26.626062);
    assert_eq!(f32::from_bits(reading_result.held_temps_c[3]), 66.57309);

    assert_eq!(f32::from_bits(reading_result.meter_temp_c), 26.3125);
    assert_eq!(reading_result.hold_type, HoldType::Current);
}

#[test]
fn test_parse_bad_sync() {
    let mut buffer = [0u8; Reading::N_BYTES];
    buffer[0] = 0x00;
    let reading_result = Reading::parse(&buffer);
    assert!(reading_result.is_err());
    assert_eq!(reading_result.unwrap_err().message(), "Bad sync header");
}

#[test]
fn test_parse_invalid_hold_type() {
    let mut buffer = [0u8; Reading::N_BYTES];
    buffer[..Reading::N_SYNC_BYTES].copy_from_slice(&Reading::SYNC);
    buffer[Reading::N_BYTES - 3] = 0xff;
    let reading_result = Reading::parse(&buffer);
    assert!(reading_result.is_err());
    assert_eq!(reading_result.unwrap_err().message(), "Invalid HoldType");
}

#[test]
fn wrong_sizes_are_rejected() {
    for len in [0usize, 1, 5, 55, 57, 112] {
        let mut buffer = vec![0u8; len];
        let n = len.min(Reading::N_SYNC_BYTES);
        buffer[..n].copy_from_slice(&Reading::SYNC[..n]);
        let err = Reading::parse(&buffer).unwrap_err();
        assert_eq!(err, DecodeError::WrongSize);
        assert_eq!(err.message(), "Incorrect buffer size");
    }
}

#[test]
fn any_corrupt_marker_byte_is_bad_sync() {
    for i in 0..Reading::N_SYNC_BYTES {
        let mut buffer = SAMPLE;
        buffer[i] ^= 0x01;
        assert_eq!(Reading::parse(&buffer).unwrap_err(), DecodeError::BadSync);
    }
}

#[test]
fn bad_sync_is_reported_before_hold_type() {
    let mut buffer = [0u8; Reading::N_BYTES];
    buffer[53] = 0xff;
    assert_eq!(Reading::parse(&buffer).unwrap_err(), DecodeError::BadSync);
}

#[test]
fn hold_type_codes_map_in_order() {
    let expected = [HoldType::Current, HoldType::Maximum, HoldType::Minimum, HoldType::Average];
    for (code, hold) in expected.iter().enumerate() {
        assert_eq!(HoldType::try_from(code as u8), Ok(*hold));
        let mut buffer = synced_zeros();
        buffer[53] = code as u8;
        assert_eq!(Reading::parse(&buffer).unwrap().hold_type, *hold);
    }
    for code in [4u8, 5, 0x80, 0xff] {
        assert_eq!(HoldType::try_from(code), Err(()));
        let mut buffer = synced_zeros();
        buffer[53] = code;
        assert_eq!(Reading::parse(&buffer).unwrap_err(), DecodeError::InvalidHoldType);
    }
}

#[test]
fn set_flag_replaces_value_with_nan() {
    let mut buffer = synced_zeros();
    // current channel 2 carries 1.5, held channel 0 carries -2.0; both flagged
    buffer[13..17].copy_from_slice(&1.5f32.to_le_bytes());
    buffer[23] = 0x01;
    buffer[25..29].copy_from_slice(&(-2.0f32).to_le_bytes());
    buffer[41] = 0xff;
    let reading = Reading::parse(&buffer).unwrap();
    assert_eq!(reading.current_temps_c[2], ut325f::frame::NAN_BITS);
    assert!(f32::from_bits(reading.current_temps_c[2]).is_nan());
    assert!(f32::from_bits(reading.held_temps_c[0]).is_nan());
    assert_eq!(f32::from_bits(reading.current_temps_c[0]), 0.0);
    assert_eq!(f32::from_bits(reading.held_temps_c[1]), 0.0);
}

#[test]
fn clear_flag_keeps_exact_bits() {
    let mut buffer = synced_zeros();
    let patterns: [u32; 4] = [0x7f80_0001, 0xffff_ffff, 0x8000_0000, 0x4148_0000];
    for (i, bits) in patterns.iter().enumerate() {
        buffer[5 + 4 * i..9 + 4 * i].copy_from_slice(&bits.to_le_bytes());
        buffer[25 + 4 * i..29 + 4 * i].copy_from_slice(&bits.to_le_bytes());
    }
    buffer[45..49].copy_from_slice(&(-12.25f32).to_le_bytes());
    let reading = Reading::parse(&buffer).unwrap();
    assert_eq!(reading.current_temps_c, patterns);
    assert_eq!(reading.held_temps_c, patterns);
    assert_eq!(f32::from_bits(reading.current_temps_c[3]), 12.5);
    assert_eq!(f32::from_bits(reading.meter_temp_c), -12.25);
}

#[test]
fn trailer_and_unknown_field_are_not_checked() {
    let mut a = SAMPLE;
    a[49..53].copy_from_slice(&[0xde, 0xad, 0xbe, 0xef]);
    a[54] = 0x00;
    a[55] = 0xff;
    let ra = Reading::parse(&a).unwrap();
    let rb = Reading::parse(&SAMPLE).unwrap();
    assert_eq!(ra.current_temps_c, rb.current_temps_c);
    assert_eq!(ra.held_temps_c, rb.held_temps_c);
    assert_eq!(ra.meter_temp_c, rb.meter_temp_c);
}

#[test]
fn parse_at_keeps_the_given_instant() {
    let t = std::time::UNIX_EPOCH + std::time::Duration::from_millis(1_234_567);
    let reading = Reading::parse_at(&SAMPLE, t).unwrap();
    assert_eq!(reading.timestamp, t);
    assert_eq!(f32::from_bits(reading.meter_temp_c), 26.3125);
}

#[test]
fn every_error_has_a_message() {
    assert_eq!(DecodeError::IncompleteParse.message(), "Failed to parse all bytes");
    assert_eq!(DecodeError::WrongSize.message(), "Incorrect buffer size");
}
