//! Tests of the transport header decoder.

use telegram_decoder::udp::{parse_udp_datagram_header, UDPDatagramHeader};
use telegram_decoder::wire::u32_to_le_bytes;
use telegram_decoder::DecodeError;

fn create_valid_test_data() -> [u8; 24] {
    [
        'd'.try_into().unwrap(),
        'a'.try_into().unwrap(),
        't'.try_into().unwrap(),
        'a'.try_into().unwrap(),
        'p'.try_into().unwrap(),
        'r'.try_into().unwrap(),
        0x12,
        0x34,
        0x67,
        0x45,
        0x23,
        0x01,
        0xEF,
        0xCD,
        0xAB,
        0x89,
        0x69,
        0xEE,
        0xFF,
        0xC0,
        0x00,
        0x00,
        0x00,
        0x00,
    ]
}

#[test]
fn main_parse_datagram_marker_from_valid_udp_header() {
    let test_data = create_valid_test_data();
    let result = parse_udp_datagram_header(&test_data).unwrap();
    assert_eq!(result.datagram_marker, "data");
}

#[test]
fn main_parse_protocol_from_valid_udp_header() {
    let test_data = create_valid_test_data();
    let result = parse_udp_datagram_header(&test_data).unwrap();
    assert_eq!(result.protocol, "pr");
}

#[test]
fn main_parse_version_from_valid_udp_header() {
    let test_data = create_valid_test_data();
    let result = parse_udp_datagram_header(&test_data).unwrap();
    assert_eq!(result.version_maj, 0x12);
    assert_eq!(result.version_min, 0x34);
}

#[test]
fn main_parse_total_length_from_valid_udp_header() {
    let test_data = create_valid_test_data();
    let result = parse_udp_datagram_header(&test_data).unwrap();
    assert_eq!(result.total_length, 0x01234567);
}

#[test]
fn main_parse_identification_from_valid_udp_header() {
    let test_data = create_valid_test_data();
    let result = parse_udp_datagram_header(&test_data).unwrap();
    assert_eq!(result.identification, 0x89ABCDEF);
}

#[test]
fn main_parse_fragment_offset_from_valid_udp_header() {
    let test_data = create_valid_test_data();
    let result = parse_udp_datagram_header(&test_data).unwrap();
    assert_eq!(result.fragment_offset, 0xC0FFEE69);
}

fn create_valid_struct_test_data() -> ([u8; 24], UDPDatagramHeader) {
    let datagram_marker: [u8; 4] = ['d', 'a', 't', 'a']
        .iter()
        .map(|&c| c as u8)
        .collect::<Vec<u8>>()
        .try_into()
        .unwrap();
    let protocol: [u8; 2] = ['p', 'r']
        .iter()
        .map(|&char| char as u8)
        .collect::<Vec<u8>>()
        .try_into()
        .unwrap();
    let version_maj = [0x12];
    let version_min = [0x34];
    let total_length = [0x67, 0x45, 0x23, 0x01];
    let identification = [0xEF, 0xCD, 0xAB, 0x89];
    let fragment_offset = [0x69, 0xEE, 0xFF, 0xC0];

    let mut data = Vec::new();
    data.extend_from_slice(&datagram_marker);
    data.extend_from_slice(&protocol);
    data.extend_from_slice(&version_maj);
    data.extend_from_slice(&version_min);
    data.extend_from_slice(&total_length);
    data.extend_from_slice(&identification);
    data.extend_from_slice(&fragment_offset);
    data.extend_from_slice(&[0u8; 4]);
    (
        data.try_into().unwrap(),
        UDPDatagramHeader {
            datagram_marker: String::from_utf8(datagram_marker.into()).unwrap(),
            protocol: String::from_utf8(protocol.into()).unwrap(),
            version_maj: u8::from_le_bytes(version_maj),
            version_min: u8::from_le_bytes(version_min),
            total_length: u32::from_le_bytes(total_length),
            identification: u32::from_le_bytes(identification),
            fragment_offset: u32::from_le_bytes(fragment_offset),
        },
    )
}

#[test]
fn udp_parse_datagram_marker_from_valid_udp_header() {
    let (test_data, expected_header) = create_valid_struct_test_data();
    let result = UDPDatagramHeader::from_bytes(&test_data).unwrap();
    assert_eq!(result.datagram_marker, expected_header.datagram_marker);
}

#[test]
fn udp_parse_protocol_from_valid_udp_header() {
    let (test_data, expected_header) = create_valid_struct_test_data();
    let result = UDPDatagramHeader::from_bytes(&test_data).unwrap();
    assert_eq!(result.protocol, expected_header.protocol);
}

#[test]
fn udp_parse_version_from_valid_udp_header() {
    let (test_data, expected_header) = create_valid_struct_test_data();
    let result = UDPDatagramHeader::from_bytes(&test_data).unwrap();
    assert_eq!(result.version_maj, expected_header.version_maj);
    assert_eq!(result.version_min, expected_header.version_min);
}

#[test]
fn udp_parse_total_length_from_valid_udp_header() {
    let (test_data, expected_header) = create_valid_struct_test_data();
    let result = UDPDatagramHeader::from_bytes(&test_data).unwrap();
    assert_eq!(result.total_length, expected_header.total_length);
}

#[test]
fn udp_parse_identification_from_valid_udp_header() {
    let (test_data, expected_header) = create_valid_struct_test_data();
    let result = UDPDatagramHeader::from_bytes(&test_data).unwrap();
    assert_eq!(result.identification, expected_header.identification);
}

#[test]
fn udp_parse_fragment_offset_from_valid_udp_header() {
    let (test_data, expected_header) = create_valid_struct_test_data();
    let result = UDPDatagramHeader::from_bytes(&test_data).unwrap();
    assert_eq!(result.fragment_offset, expected_header.fragment_offset);
}

#[test]
fn transport_header_rejects_short_buffer() {
    let result = parse_udp_datagram_header(&create_valid_test_data()[..19]);
    assert_eq!(result.unwrap_err(), DecodeError::TooShort);
}

#[test]
fn transport_header_rejects_invalid_utf8_marker() {
    let mut test_data = create_valid_test_data();
    test_data[0] = 0xFF;
    let result = parse_udp_datagram_header(&test_data);
    assert_eq!(result.unwrap_err(), DecodeError::MalformedText);
}

#[test]
fn transport_header_rejects_invalid_utf8_protocol() {
    let mut test_data = create_valid_test_data();
    test_data[4] = 0xFE;
    let result = parse_udp_datagram_header(&test_data);
    assert_eq!(result.unwrap_err(), DecodeError::MalformedText);
}

#[test]
fn transport_numeric_fields_round_trip() {
    let test_data = create_valid_test_data();
    let header = parse_udp_datagram_header(&test_data).unwrap();
    assert_eq!(
        u32_to_le_bytes(header.total_length).as_slice(),
        &test_data[8..12]
    );
    assert_eq!(
        u32_to_le_bytes(header.identification).as_slice(),
        &test_data[12..16]
    );
    assert_eq!(
        u32_to_le_bytes(header.fragment_offset).as_slice(),
        &test_data[16..20]
    );
}
