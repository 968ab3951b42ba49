//! Tests of the transport frames and of gateway discovery.
use klartext::hsfz::{
    control, first_link_local, is_vin_char, remaining_len, scan_vin, Error, Gateway, HsfzFrame,
    MAX_FRAME_LEN,
};

#[test]
fn scan_vin_finds_a_17_char_vin_in_the_body() {
    let mut datagram = vec![0x00, 0x00, 0x00, 0x1B, 0x00, 0x11];
    datagram.extend_from_slice(&[0x10, 0xF4, 0x00, 0x01]);
    datagram.extend_from_slice(b"WBA3B5C50EK123456");
    assert_eq!(scan_vin(&datagram).as_deref(), Some("WBA3B5C50EK123456"));
}

#[test]
fn scan_vin_returns_none_without_a_vin_run() {
    let datagram = [0x00, 0x00, 0x00, 0x06, 0x00, 0x11, 0x10, 0xF4, 0x00, 0x01];
    assert_eq!(scan_vin(&datagram), None);
}

#[test]
fn vin_alphabet_excludes_i_o_q() {
    assert!(!is_vin_char(b'I'));
    assert!(!is_vin_char(b'O'));
    assert!(!is_vin_char(b'Q'));
    assert!(is_vin_char(b'H'));
    assert!(is_vin_char(b'P'));
    assert!(is_vin_char(b'Z'));
    assert!(is_vin_char(b'0'));
}

#[test]
fn scan_vin_takes_the_first_of_two() {
    let datagram = b"\x00WBA3B5C50EK123456\x00WBA3B5C50EK999999";
    assert_eq!(scan_vin(datagram).as_deref(), Some("WBA3B5C50EK123456"));
}

#[test]
fn a_gateway_carries_its_address_the_vin_and_the_reply() {
    let mut reply = vec![0x00, 0x00, 0x00, 0x1B, 0x00, 0x11];
    reply.extend_from_slice(b"WBA3B5C50EK123456");
    let gateway = Gateway::from_reply([169, 254, 1, 2], reply.clone());
    assert_eq!(gateway.ip, [169, 254, 1, 2]);
    assert_eq!(gateway.vin.as_deref(), Some("WBA3B5C50EK123456"));
    assert_eq!(gateway.raw, reply);
}

#[test]
fn the_first_link_local_address_is_bound() {
    let addresses = [[192, 168, 0, 4], [169, 254, 7, 8], [169, 254, 9, 9]];
    assert_eq!(first_link_local(&addresses), Some([169, 254, 7, 8]));
    assert_eq!(first_link_local(&[[10, 0, 0, 1]]), None);
}

#[test]
fn discovery_request_round_trips_verbatim() {
    let f = HsfzFrame::identification_request();
    let bytes = f.encode();
    assert_eq!(bytes, vec![0x00, 0x00, 0x00, 0x00, 0x00, 0x11]);
    assert_eq!(HsfzFrame::decode(&bytes).unwrap(), f);
}

#[test]
fn length_excludes_the_control_word() {
    let bytes = HsfzFrame::identification_request().encode();
    let length = u32::from_be_bytes([bytes[0], bytes[1], bytes[2], bytes[3]]);
    assert_eq!(length, 0, "control word must NOT be counted in LENGTH");
}

#[test]
fn encode_tester_present_derived() {
    let f = HsfzFrame::diagnostic(0xF4, 0x10, vec![0x3E, 0x00]);
    assert_eq!(
        f.encode(),
        vec![0x00, 0x00, 0x00, 0x04, 0x00, 0x01, 0xF4, 0x10, 0x3E, 0x00]
    );
}

#[test]
fn encode_dsc_extended_derived() {
    let f = HsfzFrame::diagnostic(0xF4, 0x10, vec![0x10, 0x03]);
    assert_eq!(
        f.encode(),
        vec![0x00, 0x00, 0x00, 0x04, 0x00, 0x01, 0xF4, 0x10, 0x10, 0x03]
    );
}

#[test]
fn decode_positive_response_derived() {
    let bytes = vec![0x00, 0x00, 0x00, 0x04, 0x00, 0x01, 0x10, 0xF4, 0x7E, 0x00];
    let f = HsfzFrame::decode(&bytes).unwrap();
    assert_eq!(f.control, control::DIAGNOSTIC);
    assert_eq!(f.addr, Some((0x10, 0xF4)));
    assert_eq!(f.payload, vec![0x7E, 0x00]);
}

#[test]
fn encode_decode_round_trip_derived() {
    let f = HsfzFrame::diagnostic(0xF4, 0x10, vec![0x10, 0x03]);
    assert_eq!(HsfzFrame::decode(&f.encode()).unwrap(), f);
}

#[test]
fn decode_truncated_body_is_error_not_panic() {
    let bytes = vec![0x00, 0x00, 0x00, 0x04, 0x00, 0x01, 0xF4];
    assert!(matches!(HsfzFrame::decode(&bytes), Err(Error::Truncated { .. })));
}

#[test]
fn decode_oversized_length_is_error_not_panic() {
    let bytes = vec![0xFF, 0xFF, 0xFF, 0xFF, 0x00, 0x01];
    assert!(matches!(HsfzFrame::decode(&bytes), Err(Error::FrameTooLarge { .. })));
}

#[test]
fn decode_too_short_for_header_is_error() {
    assert!(matches!(HsfzFrame::decode(&[0x00, 0x00]), Err(Error::Truncated { .. })));
}

#[test]
fn decode_diagnostic_without_addresses_is_error() {
    let bytes = vec![0x00, 0x00, 0x00, 0x01, 0x00, 0x01, 0xAA];
    assert!(matches!(HsfzFrame::decode(&bytes), Err(Error::Truncated { .. })));
}

#[test]
fn a_frame_that_was_decoded_encodes_to_its_bytes() {
    let bytes = vec![0x00, 0x00, 0x00, 0x03, 0x00, 0x01, 0x10, 0xF4, 0x7E];
    assert_eq!(HsfzFrame::decode(&bytes).unwrap().encode(), bytes);
}

#[test]
fn the_length_field_says_how_much_to_read() {
    assert_eq!(remaining_len([0x00, 0x00, 0x00, 0x04]), Ok(6));
    assert_eq!(remaining_len(MAX_FRAME_LEN.to_be_bytes()), Ok(65538));
    assert_eq!(
        remaining_len((MAX_FRAME_LEN + 1).to_be_bytes()),
        Err(Error::FrameTooLarge { length: 65537 })
    );
}
