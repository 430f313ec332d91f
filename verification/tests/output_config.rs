//! Tests of the output-configuration block decoder and the fixed-point
//! angle codec.

use telegram_decoder::angle::{decode_angle, encode_angle, Angle, ANGLE_SCALE};
use telegram_decoder::data_output::{Block, OutputConfigurationBlock};
use telegram_decoder::DecodeError;

fn create_valid_test_data() -> ([u8; 24], OutputConfigurationBlock) {
    let factor = [0x12, 0x23];
    let number_of_beams = [0x86, 0xAE];
    let scan_cycle_time = [0x45, 0x67];
    let reserved1 = [0; 2];
    let start_angle = [0xC0, 0xFF, 0xEE, 0x69];
    let angular_resolution = [0xAB, 0xBA, 0xFE, 0xC0];
    let beam_interval = [0x01, 0x23, 0x45, 0x56];
    let reserved2 = [0; 4];
    let mut data = Vec::new();
    data.extend_from_slice(&factor);
    data.extend_from_slice(&number_of_beams);
    data.extend_from_slice(&scan_cycle_time);
    data.extend_from_slice(&reserved1);
    data.extend_from_slice(&start_angle);
    data.extend_from_slice(&angular_resolution);
    data.extend_from_slice(&beam_interval);
    data.extend_from_slice(&reserved2);
    (
        data.try_into().unwrap(),
        OutputConfigurationBlock {
            factor: u16::from_le_bytes(factor),
            number_of_beams: u16::from_le_bytes(number_of_beams),
            scan_cycle_time: u16::from_le_bytes(scan_cycle_time),
            start_angle: exact_angle(i32::from_le_bytes(start_angle)),
            angular_resolution: exact_angle(i32::from_le_bytes(angular_resolution)),
            beam_interval: u32::from_le_bytes(beam_interval),
        },
    )
}

/// The floor-and-fraction form of `raw / 2^22`, built independently of the
/// library's decoder.
fn exact_angle(raw: i32) -> Angle {
    let scale = ANGLE_SCALE as i64;
    let whole = (raw as i64).div_euclid(scale);
    let fraction = (raw as i64).rem_euclid(scale);
    Angle {
        whole: whole as i32,
        fraction: fraction as u32,
    }
}

#[test]
fn parse_factor_from_valid_block() {
    let (test_data, expected_block) = create_valid_test_data();
    let result = OutputConfigurationBlock::from_bytes(&test_data).unwrap();
    assert_eq!(result.factor, expected_block.factor);
}

#[test]
fn parse_number_of_beams_from_valid_block() {
    let (test_data, expected_block) = create_valid_test_data();
    let result = OutputConfigurationBlock::from_bytes(&test_data).unwrap();
    assert_eq!(result.number_of_beams, expected_block.number_of_beams);
}

#[test]
fn parse_scan_cycle_time_from_valid_block() {
    let (test_data, expected_block) = create_valid_test_data();
    let result = OutputConfigurationBlock::from_bytes(&test_data).unwrap();
    assert_eq!(result.scan_cycle_time, expected_block.scan_cycle_time);
}

#[test]
fn parse_start_angle_from_valid_block() {
    let (test_data, expected_block) = create_valid_test_data();
    let result = OutputConfigurationBlock::from_bytes(&test_data).unwrap();
    assert_eq!(result.start_angle, expected_block.start_angle);
}

#[test]
fn parse_angular_resolution_from_valid_block() {
    let (test_data, expected_block) = create_valid_test_data();
    let result = OutputConfigurationBlock::from_bytes(&test_data).unwrap();
    assert_eq!(result.angular_resolution, expected_block.angular_resolution);
}

#[test]
fn parse_beam_interval_from_valid_block() {
    let (test_data, expected_block) = create_valid_test_data();
    let result = OutputConfigurationBlock::from_bytes(&test_data).unwrap();
    assert_eq!(result.beam_interval, expected_block.beam_interval);
}

#[test]
fn output_configuration_block_rejects_short_buffer() {
    let (test_data, _) = create_valid_test_data();
    let result = OutputConfigurationBlock::from_bytes(&test_data[..19]);
    assert_eq!(result.unwrap_err(), DecodeError::TooShort);
}

#[test]
fn block_decoder_rejects_out_of_range_descriptor() {
    let payload = [0u8; 25];
    let block = Block {
        offset: 10,
        size: 20,
    };
    let result = OutputConfigurationBlock::from_payload(&payload, &block);
    assert_eq!(result.unwrap_err(), DecodeError::BlockOutOfRange);
}

#[test]
fn block_decoder_rejects_in_range_but_short_descriptor() {
    let payload = [0u8; 64];
    let block = Block {
        offset: 10,
        size: 19,
    };
    let result = OutputConfigurationBlock::from_payload(&payload, &block);
    assert_eq!(result.unwrap_err(), DecodeError::TooShort);
}

#[test]
fn block_decoder_reads_descriptor_range() {
    let (block_bytes, expected_block) = create_valid_test_data();
    let mut payload = vec![0u8; 8];
    payload.extend_from_slice(&block_bytes);
    let block = Block {
        offset: 8,
        size: 24,
    };
    let result = OutputConfigurationBlock::from_payload(&payload, &block).unwrap();
    assert_eq!(result, expected_block);
}

#[test]
fn start_angle_decodes_exactly_as_scaled_division() {
    let raw = i32::from_le_bytes([0xC0, 0xFF, 0xEE, 0x69]);
    assert_eq!(raw, 0x69EEFFC0u32 as i32);
    let angle = decode_angle(raw);
    // the whole part is the truncating division of the positive raw value
    assert_eq!(angle.whole, raw / 4_194_304);
    // whole and fraction reconstruct raw / 2^22 without any loss
    assert_eq!(
        angle.whole as i64 * 4_194_304 + angle.fraction as i64,
        raw as i64
    );
    assert_eq!(
        angle.whole as f64 + angle.fraction as f64 / 4_194_304.0,
        raw as f64 / 4_194_304.0
    );
}

#[test]
fn negative_angle_decodes_exactly() {
    let raw = i32::from_le_bytes([0xAB, 0xBA, 0xFE, 0xC0]);
    assert!(raw < 0);
    let angle = decode_angle(raw);
    assert!(angle.fraction < ANGLE_SCALE);
    assert_eq!(
        angle.whole as i64 * 4_194_304 + angle.fraction as i64,
        raw as i64
    );
    assert_eq!(
        angle.whole as f64 + angle.fraction as f64 / 4_194_304.0,
        raw as f64 / 4_194_304.0
    );
}

#[test]
fn angle_decoding_is_linear() {
    let k = 123_456_789;
    let single = decode_angle(k);
    let double = decode_angle(2 * k);
    assert_eq!(
        double.whole as i64 * 4_194_304 + double.fraction as i64,
        2 * (single.whole as i64 * 4_194_304 + single.fraction as i64)
    );
    let zero = decode_angle(0);
    assert_eq!(zero, Angle { whole: 0, fraction: 0 });
}

#[test]
fn angle_round_trips_through_encode() {
    for raw in [0, 1, -1, i32::MIN, i32::MAX, 0x69EEFFC0u32 as i32] {
        assert_eq!(encode_angle(decode_angle(raw)), raw);
    }
}
