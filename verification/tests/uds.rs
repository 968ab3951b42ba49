//! Tests of request building and reply decoding.
use klartext::uds::{
    clear_diagnostic_information, clear_dynamic_data_identifier, decode_dtc_extended_data,
    decode_dtc_severity, decode_dtc_snapshot, decode_dtcs, decode_ecu_list, decode_info_memory,
    decode_read_data_by_identifier, define_dynamic_data_by_identifier, diagnostic_session_control,
    positive_response_sid, read_data_by_identifier, read_dtc_by_status_mask,
    read_dtc_extended_data_by_dtc, read_dtc_severity_by_dtc, read_dtc_snapshot_by_dtc,
    routine_control, sid_of, tester_present, tester_present_suppressed, write_data_by_identifier,
    Dtc, InfoMemory, UdsError,
};

#[test]
fn requests_are_built_byte_for_byte() {
    assert_eq!(read_data_by_identifier(0xF190), [0x22, 0xF1, 0x90]);
    assert_eq!(write_data_by_identifier(0x1001, &[0x64]), [0x2E, 0x10, 0x01, 0x64]);
    assert_eq!(clear_dynamic_data_identifier(0xF303), [0x2C, 0x03, 0xF3, 0x03]);
    assert_eq!(
        define_dynamic_data_by_identifier(0xF303, 0x4BC3, 0x01, 0x02),
        [0x2C, 0x01, 0xF3, 0x03, 0x4B, 0xC3, 0x01, 0x02]
    );
    assert_eq!(read_dtc_by_status_mask(0x0C), [0x19, 0x02, 0x0C]);
    assert_eq!(read_dtc_snapshot_by_dtc([0x24, 0, 0], 0xFF), [0x19, 0x04, 0x24, 0, 0, 0xFF]);
    assert_eq!(
        read_dtc_extended_data_by_dtc([0x24, 0, 0], 0xFF),
        [0x19, 0x06, 0x24, 0, 0, 0xFF]
    );
    assert_eq!(read_dtc_severity_by_dtc([0x24, 0, 0]), [0x19, 0x09, 0x24, 0, 0]);
    assert_eq!(clear_diagnostic_information([0xFF; 3]), [0x14, 0xFF, 0xFF, 0xFF]);
    assert_eq!(routine_control(0x01, 0x4000, &[0x00]), [0x31, 0x01, 0x40, 0x00, 0x00]);
    assert_eq!(diagnostic_session_control(0x03), [0x10, 0x03]);
    assert_eq!(tester_present(), [0x3E, 0x00]);
    assert_eq!(tester_present_suppressed(), [0x3E, 0x80]);
    assert_eq!(positive_response_sid(0x22), 0x62);
    assert_eq!(sid_of(&[0x22, 0xF1]), 0x22);
    assert_eq!(sid_of(&[]), 0);
}

#[test]
fn an_identified_value_is_split_from_its_echo() {
    assert_eq!(
        decode_read_data_by_identifier(&[0x62, 0xF1, 0x90, 0xAB, 0xCD]),
        Ok((0xF190, vec![0xAB, 0xCD]))
    );
    assert_eq!(
        decode_read_data_by_identifier(&[0x62, 0xF1]),
        Err(UdsError::BadLength { got: 2 })
    );
    assert_eq!(
        decode_read_data_by_identifier(&[0x59, 0xF1, 0x90]),
        Err(UdsError::UnexpectedReply)
    );
}

#[test]
fn trouble_codes_are_four_bytes_each() {
    assert_eq!(
        decode_dtcs(&[0x59, 0x02, 0x0C, 0x4A, 0x12, 0x34, 0x08]),
        Ok(vec![Dtc { code: [0x4A, 0x12, 0x34], status: 0x08 }])
    );
    assert_eq!(decode_dtcs(&[0x59, 0x02, 0x0C]), Ok(vec![]));
    assert_eq!(
        decode_dtcs(&[0x59, 0x02, 0x0C, 0x4A]),
        Err(UdsError::BadLength { got: 4 })
    );
    assert_eq!(decode_dtcs(&[0x59, 0x04, 0x0C]), Err(UdsError::UnexpectedReply));
    assert_eq!(
        decode_info_memory(&[0x62, 0x20, 0x00, 0xC9, 0x0D, 0x60, 0x2F]),
        Ok(InfoMemory {
            entries: vec![Dtc { code: [0xC9, 0x0D, 0x60], status: 0x2F }],
            raw: vec![0xC9, 0x0D, 0x60, 0x2F],
        })
    );
}

#[test]
fn an_ecu_list_is_a_count_and_addresses() {
    let list = decode_ecu_list(&[0x00, 0x03, 0x10, 0x12, 0x40]).unwrap();
    assert_eq!(list.count, 3);
    assert_eq!(list.addresses, vec![0x10, 0x12, 0x40]);
    assert!(decode_ecu_list(&[0x00]).is_err());
}

#[test]
fn record_regions_carry_their_code_and_status() {
    let region = decode_dtc_snapshot(&[
        0x59, 0x04, 0x24, 0x00, 0x00, 0x08, 0x01, 0x01, 0x52, 0x05, 0x7B,
    ])
    .unwrap();
    assert_eq!(region.dtc, [0x24, 0x00, 0x00]);
    assert_eq!(region.status, 0x08);
    assert_eq!(region.body, vec![0x01, 0x01, 0x52, 0x05, 0x7B]);
    let extended =
        decode_dtc_extended_data(&[0x59, 0x06, 0x24, 0x00, 0x00, 0x08, 0x02, 0x1F]).unwrap();
    assert_eq!(extended.body, vec![0x02, 0x1F]);
    assert!(decode_dtc_snapshot(&[0x59, 0x06, 0x24, 0x00, 0x00, 0x08]).is_err());
}

#[test]
fn a_severity_names_its_unit() {
    let severity =
        decode_dtc_severity(&[0x59, 0x09, 0xFF, 0x20, 0x10, 0x24, 0x00, 0x00, 0x08]).unwrap();
    assert_eq!(severity.severity, 0x20);
    assert_eq!(severity.functional_unit, 0x10);
    assert_eq!(severity.dtc, [0x24, 0x00, 0x00]);
    assert_eq!(severity.status, 0x08);
    assert!(decode_dtc_severity(&[0x59, 0x09]).is_err());
}
