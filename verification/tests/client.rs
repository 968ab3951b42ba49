//! Tests of the client's services, each driven against a table of replies.
use klartext::client::actions::{
    clear_all_dtcs_functional, clear_gateway_combined_store, tester_present_request, ClampCycle,
    ClampStep, Script,
};
use klartext::client::error::{copy_error, ClientError, Outcome};
use klartext::client::identity::{
    compare_vin, decode_i_stufe_record, decode_vin, did_request, read_ecu_list,
    read_i_stufe_levels, read_responding_ecu_list, Identification, VehicleIdentification,
    VehicleStep, VinCheck, VinLadder, CAS_ADDRESS, FRM_ADDRESS, VIN_SENTINEL,
};
use klartext::client::services::{
    fault_request, info_request, read_did, read_dtcs, read_ecu_faults, read_info_memory,
    request_optional, select_gateway, ClientConfig, FaultDetail, Request,
};
use klartext::client::session::read_timeout;
use klartext::hsfz::{Gateway, ZGW_ADDRESS};
use klartext::uds::{KL15_OFF, KL15_ON};

const DDE: u8 = 0x12;

/// A car that answers a table of requests, and what it was asked.
struct Car {
    table: Vec<(u8, Vec<u8>, Vec<u8>)>,
    log: Vec<(u8, Vec<u8>)>,
}

impl Car {
    fn new(table: Vec<(u8, Vec<u8>, Vec<u8>)>) -> Car {
        Car { table, log: Vec::new() }
    }

    /// Answer a request: a served one from the table, another one to a known ECU with a refusal,
    /// and one to an unknown ECU with silence.
    fn ask(&mut self, request: Request) -> Outcome {
        self.log.push((request.target, request.uds.clone()));
        let served =
            self.table.iter().find(|(t, req, _)| *t == request.target && *req == request.uds);
        match served {
            Some((_, _, reply)) if reply[0] == 0x7F => {
                Err(ClientError::Negative { sid: reply[1], nrc: reply[2] })
            }
            Some((_, _, reply)) => Ok(reply.clone()),
            None if self.table.iter().any(|(t, _, _)| *t == request.target) => {
                Err(ClientError::Negative { sid: request.uds[0], nrc: 0x31 })
            }
            None => Err(read_timeout(1200)),
        }
    }
}

fn run(script: &mut Script, car: &mut Car) {
    while let Some(request) = script.next() {
        let outcome = car.ask(request);
        script.record(outcome);
    }
}

#[test]
fn read_dynamic_measurement_runs_clear_define_read() {
    let mut car = Car::new(vec![
        (DDE, vec![0x2C, 0x03, 0xF3, 0x03], vec![0x6C, 0x03, 0xF3, 0x03]),
        (
            DDE,
            vec![0x2C, 0x01, 0xF3, 0x03, 0x4B, 0xC3, 0x01, 0x02],
            vec![0x6C, 0x01, 0xF3, 0x03],
        ),
        (DDE, vec![0x22, 0xF3, 0x03], vec![0x62, 0xF3, 0x03, 0x0E, 0x2F]),
    ]);
    let mut script = Script::read_dynamic_measurement(
        DDE,
        vec![
            vec![0x2C, 0x03, 0xF3, 0x03],
            vec![0x2C, 0x01, 0xF3, 0x03, 0x4B, 0xC3, 0x01, 0x02],
            vec![0x22, 0xF3, 0x03],
        ],
    );
    run(&mut script, &mut car);
    assert_eq!(script.read_value().unwrap(), vec![0x0E, 0x2F]);
}

#[test]
fn a_dynamic_sequence_without_a_read_is_an_error() {
    let mut car = Car::new(vec![(DDE, vec![0x2C, 0x03, 0xF3, 0x03], vec![0x6C, 0x03])]);
    let mut script =
        Script::read_dynamic_measurement(DDE, vec![vec![0x2C, 0x03, 0xF3, 0x03]]);
    run(&mut script, &mut car);
    assert!(matches!(script.read_value(), Err(ClientError::NoMeasurementRead)));
}

#[test]
fn a_dynamic_read_checks_the_echo() {
    let mut car =
        Car::new(vec![(DDE, vec![0x22, 0xF3, 0x03], vec![0x62, 0xF1, 0x90, 0x0E, 0x2F])]);
    let mut script = Script::read_dynamic_measurement(DDE, vec![vec![0x22, 0xF3, 0x03]]);
    run(&mut script, &mut car);
    assert!(matches!(
        script.read_value(),
        Err(ClientError::UnexpectedDid { requested: 0xF303, got: 0xF190 })
    ));
}

fn detail_car() -> Car {
    Car::new(vec![
        (
            DDE,
            vec![0x19, 0x04, 0x24, 0x00, 0x00, 0xFF],
            vec![0x59, 0x04, 0x24, 0x00, 0x00, 0x08, 0x01, 0x01, 0x52, 0x05, 0x7B],
        ),
        (
            DDE,
            vec![0x19, 0x06, 0x24, 0x00, 0x00, 0xFF],
            vec![0x59, 0x06, 0x24, 0x00, 0x00, 0x08, 0x02, 0x1F],
        ),
        (
            DDE,
            vec![0x19, 0x09, 0x24, 0x00, 0x00],
            vec![0x59, 0x09, 0xFF, 0x20, 0x10, 0x24, 0x00, 0x00, 0x08],
        ),
    ])
}

fn detail(car: &mut Car, dtc: [u8; 3], severity: Option<bool>) -> FaultDetail {
    let mut machine = FaultDetail::start(DDE, dtc, severity);
    while let Some(request) = machine.next() {
        let outcome = car.ask(request);
        machine.record(outcome);
    }
    machine
}

#[test]
fn read_fault_detail_reads_snapshot_extended_and_severity() {
    let mut car = detail_car();
    let detail = detail(&mut car, [0x24, 0x00, 0x00], Some(true)).finish().unwrap();
    let snapshot = detail.snapshot.expect("snapshot present");
    assert_eq!(snapshot.dtc, [0x24, 0x00, 0x00]);
    assert_eq!(snapshot.status, 0x08);
    assert_eq!(snapshot.body, vec![0x01, 0x01, 0x52, 0x05, 0x7B]);
    assert_eq!(detail.extended.expect("extended present").body, vec![0x02, 0x1F]);
    assert_eq!(detail.severity.expect("severity present").severity, 0x20);
}

#[test]
fn read_fault_detail_maps_no_snapshot_to_none() {
    let mut car = detail_car();
    let detail = detail(&mut car, [0xDE, 0xAD, 0x00], None)
        .finish()
        .expect("a negative response is not an error");
    assert_eq!(detail.snapshot, None);
    assert_eq!(detail.extended, None);
    assert_eq!(detail.severity, None);
}

#[test]
fn read_fault_detail_issues_severity_then_extended_then_snapshot() {
    let mut car = detail_car();
    let found = detail(&mut car, [0x24, 0x00, 0x00], Some(true)).finish().unwrap();
    assert!(found.severity.is_some());
    assert!(found.extended.is_some());
    assert!(found.snapshot.is_some());
    let subfns: Vec<u8> = car.log.iter().map(|(_, payload)| payload[1]).collect();
    assert_eq!(subfns, vec![0x09, 0x06, 0x04], "the transmit order is 09, 06, 04");
}

#[test]
fn read_fault_detail_skips_severity_read_when_unsupported() {
    let mut car = detail_car();
    let found = detail(&mut car, [0x24, 0x00, 0x00], Some(false)).finish().unwrap();
    assert_eq!(found.severity, None);
    assert!(!car.log.iter().any(|(_, payload)| payload.starts_with(&[0x19, 0x09])));
    assert!(found.extended.is_some());
    assert!(found.snapshot.is_some());
}

#[test]
fn read_fault_detail_sends_severity_read_when_support_unknown() {
    let mut car = detail_car();
    let found = detail(&mut car, [0x24, 0x00, 0x00], None).finish().unwrap();
    assert_eq!(found.severity.expect("severity sent on fallback").severity, 0x20);
    assert!(car.log.iter().any(|(_, payload)| payload.starts_with(&[0x19, 0x09])));
}

#[test]
fn a_silent_ecu_ends_the_fault_detail() {
    let mut car = Car::new(Vec::new());
    let machine = detail(&mut car, [0x24, 0x00, 0x00], None);
    assert_eq!(car.log.len(), 1);
    assert!(matches!(machine.finish(), Err(ClientError::Hsfz(_))));
}

#[test]
fn read_did_rejects_a_mismatched_did_echo() {
    let err = read_did(0xF405, Ok(vec![0x62, 0xF1, 0x90, 0xAB])).unwrap_err();
    assert!(
        matches!(err, ClientError::UnexpectedDid { requested: 0xF405, got: 0xF190 }),
        "expected UnexpectedDid, got {err:?}"
    );
    assert_eq!(read_did(0xF190, Ok(vec![0x62, 0xF1, 0x90, 0xAB])).unwrap(), vec![0xAB]);
    assert!(matches!(read_did(0xF190, Ok(vec![0x7E])), Err(ClientError::Uds(_))));
}

#[test]
fn reset_cbs_enters_session_writes_then_reads_back() {
    let reset = vec![
        0x2E, 0x10, 0x01, 0x01, 0x01, 0x64, 0x1F, 0x80, 0x00, 0x0F, 0xFF, 0x0F, 0x3F, 0xFF, 0x00,
    ];
    let read_back = [0x22, 0x10, 0x01];
    let mut car = Car::new(vec![
        (DDE, vec![0x10, 0x03], vec![0x50, 0x03, 0x00, 0x32, 0x13, 0x88]),
        (DDE, reset.clone(), vec![0x6E, 0x10, 0x01]),
        (DDE, read_back.to_vec(), vec![0x62, 0x10, 0x01, 0x01, 0x64]),
    ]);
    let mut script = Script::reset_cbs(DDE, &reset, &read_back);
    run(&mut script, &mut car);
    assert_eq!(script.read_back().unwrap(), vec![0x01, 0x64]);
    let sids: Vec<u8> = car.log.iter().map(|(_, p)| p[0]).collect();
    assert_eq!(sids, vec![0x10, 0x2E, 0x22]);
}

#[test]
fn run_service_reset_enters_session_then_sends_derived_frame() {
    let mut car = Car::new(vec![
        (DDE, vec![0x10, 0x03], vec![0x50, 0x03, 0x00, 0x32, 0x13, 0x88]),
        (DDE, vec![0x2E, 0x5F, 0x84], vec![0x6E, 0x5F, 0x84]),
    ]);
    let mut script = Script::run_service_reset(DDE, &[0x2E, 0x5F, 0x84]);
    run(&mut script, &mut car);
    assert_eq!(script.last_reply().unwrap(), Some(vec![0x6E, 0x5F, 0x84]));
}

#[test]
fn a_script_stops_at_its_first_failure() {
    let mut car = Car::new(vec![(DDE, vec![0x10, 0x03], vec![0x7F, 0x10, 0x22])]);
    let mut script = Script::clear_all_dtcs(DDE);
    run(&mut script, &mut car);
    assert_eq!(car.log, vec![(DDE, vec![0x10, 0x03])], "no clear after a refused session");
    assert!(matches!(script.finish(), Err(ClientError::Negative { sid: 0x10, nrc: 0x22 })));
}

#[test]
fn a_clear_enters_the_session_and_names_its_code() {
    let mut car = Car::new(vec![
        (DDE, vec![0x10, 0x03], vec![0x50, 0x03]),
        (DDE, vec![0x14, 0x24, 0x00, 0x01], vec![0x54]),
    ]);
    let mut script = Script::clear_dtcs(DDE, [0x24, 0x00, 0x01]);
    run(&mut script, &mut car);
    assert_eq!(script.finish().unwrap().len(), 2);
    assert!(car.log.iter().all(|(_, p)| p[0] != 0x11), "a clear never resets an ECU");
}

#[test]
fn clear_all_dtcs_functional_broadcasts_one_clear_with_no_session_prefix() {
    let request = clear_all_dtcs_functional();
    assert_eq!((request.target, request.uds), (0xDF, vec![0x14, 0xFF, 0xFF, 0xFF]));
}

#[test]
fn clear_gateway_combined_store_sends_the_pinned_zfs_routine() {
    let request = clear_gateway_combined_store();
    assert_eq!((request.target, request.uds), (ZGW_ADDRESS, vec![0x31, 0x01, 0x40, 0x00, 0x00]));
}

#[test]
fn the_presence_ping_is_answerable() {
    let request = tester_present_request(DDE);
    assert_eq!((request.target, request.uds), (DDE, vec![0x3E, 0x00]));
}

#[test]
fn read_ecu_list_decodes_svt_addresses() {
    assert_eq!(did_request(ZGW_ADDRESS, 0x3F07).uds, vec![0x22, 0x3F, 0x07]);
    let list =
        read_ecu_list(Ok(vec![0x62, 0x3F, 0x07, 0x00, 0x03, 0x10, 0x12, 0x40])).unwrap();
    assert_eq!(list.count, 3);
    assert_eq!(list.addresses, vec![0x10, 0x12, 0x40]);
}

#[test]
fn read_i_stufe_decodes_the_binary_vcm_record() {
    let levels = read_i_stufe_levels(Ok(vec![
        0x62, 0x10, 0x0B, 0x46, 0x30, 0x32, 0x30, 0x15, 0x0B, 0x01, 0xF4,
    ]))
    .unwrap()
    .unwrap();
    assert_eq!(levels.current, "F020-21-11-500");
    assert_eq!(levels.previous, None);
    assert_eq!(levels.factory, None);
}

#[test]
fn read_info_memory_decodes_entries_and_handles_rejection() {
    assert_eq!(info_request(DDE).uds, vec![0x22, 0x20, 0x00]);
    let info = read_info_memory(Ok(vec![0x62, 0x20, 0x00, 0xC9, 0x0D, 0x60, 0x2F]))
        .unwrap()
        .expect("some");
    assert_eq!(info.entries.len(), 1);
    assert_eq!(info.entries[0].code, [0xC9, 0x0D, 0x60]);
    assert_eq!(info.entries[0].status, 0x2F);
    assert_eq!(info.raw, vec![0xC9, 0x0D, 0x60, 0x2F]);
    let refused = Err(ClientError::Negative { sid: 0x22, nrc: 0x31 });
    assert!(read_info_memory(refused).unwrap().is_none());
}

#[test]
fn read_ecu_faults_issues_both_the_fault_and_info_reads() {
    let mut car = Car::new(vec![
        (DDE, vec![0x19, 0x02, 0x0C], vec![0x59, 0x02, 0x0C, 0x4A, 0x12, 0x34, 0x08]),
        (DDE, vec![0x22, 0x20, 0x00], vec![0x62, 0x20, 0x00, 0xC9, 0x0D, 0x60, 0x2F]),
    ]);
    let faults = read_dtcs(car.ask(fault_request(DDE))).unwrap();
    let bundle = read_ecu_faults(faults, car.ask(info_request(DDE)));
    assert_eq!(bundle.faults.len(), 1);
    assert_eq!(bundle.faults[0].code, [0x4A, 0x12, 0x34]);
    assert_eq!(bundle.info.len(), 1);
    assert_eq!(bundle.info[0].code, [0xC9, 0x0D, 0x60]);
    assert!(bundle.info_supported);
    assert_eq!(
        car.log,
        vec![(DDE, vec![0x19, 0x02, 0x0C]), (DDE, vec![0x22, 0x20, 0x00])]
    );
}

#[test]
fn read_ecu_faults_degrades_an_info_negative_to_unsupported() {
    let faults = read_dtcs(Ok(vec![0x59, 0x02, 0x0C, 0x4A, 0x12, 0x34, 0x08])).unwrap();
    let bundle = read_ecu_faults(faults, Err(ClientError::Negative { sid: 0x22, nrc: 0x31 }));
    assert_eq!(bundle.faults.len(), 1);
    assert!(bundle.info.is_empty());
    assert!(!bundle.info_supported);
}

#[test]
fn read_ecu_faults_keeps_the_faults_when_the_info_read_times_out() {
    let faults = read_dtcs(Ok(vec![0x59, 0x02, 0x0C, 0x4A, 0x12, 0x34, 0x08])).unwrap();
    let bundle = read_ecu_faults(faults, Err(read_timeout(150)));
    assert_eq!(bundle.faults.len(), 1, "the fault read must survive");
    assert_eq!(bundle.faults[0].code, [0x4A, 0x12, 0x34]);
    assert!(bundle.info.is_empty());
    assert!(!bundle.info_supported, "a timed-out info read is unsupported");
}

#[test]
fn read_responding_ecu_list_reads_3f08_and_handles_rejection() {
    let list = read_responding_ecu_list(Ok(vec![0x62, 0x3F, 0x08, 0x00, 0x02, 0x12, 0x40]))
        .unwrap()
        .expect("some");
    assert_eq!(list.addresses, vec![0x12, 0x40]);
    let refused = Err(ClientError::Negative { sid: 0x22, nrc: 0x31 });
    assert!(read_responding_ecu_list(refused).unwrap().is_none());
}

#[test]
fn a_refusal_is_an_optional_answer_and_silence_is_not() {
    let refused = Err(ClientError::Negative { sid: 0x19, nrc: 0x31 });
    assert_eq!(request_optional(refused).unwrap(), None);
    assert_eq!(request_optional(Ok(vec![0x59])).unwrap(), Some(vec![0x59]));
    assert!(request_optional(Err(read_timeout(1200))).is_err());
}

#[test]
fn decode_i_stufe_takes_the_current_record_and_degrades_safely() {
    let raw = [
        0x46, 0x30, 0x32, 0x35, 0x17, 0x07, 0x02, 0x12, // the current level
        0x46, 0x30, 0x32, 0x35, 0x14, 0x07, 0x02, 0x1C, // the previous level
        0x00, 0x14, 0x6E, 0x0E, // trailing bytes
    ];
    assert_eq!(decode_i_stufe_record(&raw, 0).as_deref(), Some("F025-23-07-530"));
    assert!(decode_i_stufe_record(&[0x46, 0x30, 0x32], 0).is_none());
    assert!(
        decode_i_stufe_record(&[0x00, 0x14, 0x6E, 0x0E, 0x01, 0x02, 0x03, 0x04], 0).is_none()
    );
    assert_eq!(decode_i_stufe_record(&raw, 1).as_deref(), Some("F025-20-07-540"));
    assert!(decode_i_stufe_record(&raw, 2).is_none());
}

fn identification(car: &mut Car, address: u8) -> Identification {
    let mut machine = Identification::start(address);
    while let Some(request) = machine.next() {
        let outcome = car.ask(request);
        machine.record(outcome);
    }
    machine
}

fn echoed(did: u16, value: &[u8]) -> Vec<u8> {
    let mut reply = vec![0x62, (did >> 8) as u8, did as u8];
    reply.extend_from_slice(value);
    reply
}

#[test]
fn read_ecu_identification_collects_answered_dids_and_skips_negatives() {
    let mut car = Car::new(vec![
        (0x12, vec![0x22, 0xF1, 0x90], echoed(0xF190, b"WBA1K2C50EV000000")),
        (0x12, vec![0x22, 0xF1, 0x97], echoed(0xF197, b"DDE")),
    ]);
    let ident = identification(&mut car, 0x12).finish().unwrap();
    assert_eq!(ident.address, 0x12);
    let vin_field = ident.fields.iter().find(|f| f.did == 0xF190).unwrap();
    assert_eq!(vin_field.raw, b"WBA1K2C50EV000000");
    assert!(ident.fields.iter().any(|f| f.did == 0xF197));
    assert!(!ident.fields.iter().any(|f| f.did == 0xF187));
}

#[test]
fn identify_vehicle_aggregates_svt_and_identification() {
    let vin = echoed(0xF190, b"WBA1K2C50EV000000");
    let mut car = Car::new(vec![
        (0x10, vec![0x22, 0x3F, 0x07], vec![0x62, 0x3F, 0x07, 0x00, 0x01, 0x12]),
        (0x10, vec![0x22, 0xF1, 0x90], vin.clone()),
        (
            0x10,
            vec![0x22, 0x10, 0x0B],
            echoed(0x100B, &[0x46, 0x30, 0x32, 0x30, 0x15, 0x0B, 0x01, 0xF4]),
        ),
        (0x10, vec![0x22, 0x3F, 0x06], vec![0x62, 0x3F, 0x06, 0xAA, 0xBB]),
        (0x12, vec![0x22, 0xF1, 0x90], vin),
    ]);
    let mut machine = VehicleIdentification::start();
    loop {
        match machine.next() {
            VehicleStep::Send(request) => {
                let outcome = car.ask(request);
                machine.record(outcome);
            }
            VehicleStep::Identify(address) => {
                let block = identification(&mut car, address).finish();
                machine.record_ecu(block);
            }
            VehicleStep::Done => break,
        }
    }
    let id = machine.finish().unwrap();
    assert_eq!(id.vin.as_deref(), Some("WBA1K2C50EV000000"));
    assert_eq!(id.ecus, vec![0x12]);
    assert_eq!(id.i_stufe.as_deref(), Some("F020-21-11-500"));
    assert_eq!(id.vehicle_order_raw, vec![0xAA, 0xBB]);
    assert_eq!(id.identification.len(), 1);
    assert_eq!(id.identification[0].address, 0x12);
}

#[test]
fn identify_vehicle_degrades_what_the_gateway_does_not_answer() {
    let mut machine = VehicleIdentification::start();
    let mut sent = 0;
    loop {
        match machine.next() {
            VehicleStep::Send(_) => {
                let outcome = if sent == 0 {
                    Ok(vec![0x62, 0x3F, 0x07, 0x00, 0x02, 0x12, 0x40])
                } else {
                    Err(ClientError::ConnectionClosed)
                };
                sent += 1;
                machine.record(outcome);
            }
            VehicleStep::Identify(_) => machine.record_ecu(Err(ClientError::ConnectionClosed)),
            VehicleStep::Done => break,
        }
    }
    assert_eq!(sent, 4);
    let id = machine.finish().unwrap();
    assert_eq!(id.vin, None);
    assert_eq!(id.i_stufe, None);
    assert!(id.vehicle_order_raw.is_empty());
    assert_eq!(id.ecus, vec![0x12, 0x40]);
    let blocks: Vec<u8> = id.identification.iter().map(|block| block.address).collect();
    assert_eq!(blocks, vec![0x12, 0x40]);

    let mut machine = VehicleIdentification::start();
    machine.record(Err(ClientError::ConnectionClosed));
    assert!(matches!(machine.next(), VehicleStep::Done));
    assert!(matches!(machine.finish(), Err(ClientError::ConnectionClosed)));
}

fn ladder(car: &mut Car) -> Option<String> {
    let mut machine = VinLadder::start();
    while let Some(request) = machine.next() {
        let outcome = car.ask(request);
        machine.record(outcome);
    }
    machine.finish()
}

const VIN_REQUEST: [u8; 3] = [0x22, 0xF1, 0x90];

fn vin_rungs_asked(car: &Car) -> Vec<u8> {
    car.log
        .iter()
        .filter(|(_, payload)| payload.as_slice() == VIN_REQUEST)
        .map(|(target, _)| *target)
        .collect()
}

#[test]
fn read_vin_falls_through_a_silent_rung_to_the_next_ecu() {
    let mut car = Car::new(vec![
        (ZGW_ADDRESS, VIN_REQUEST.to_vec(), vec![0x7F, 0x22, 0x31]),
        (CAS_ADDRESS, VIN_REQUEST.to_vec(), echoed(0xF190, b"WBA1K2C50EV000000")),
        (FRM_ADDRESS, VIN_REQUEST.to_vec(), echoed(0xF190, b"NEVERREACHED00000")),
    ]);
    assert_eq!(ladder(&mut car).as_deref(), Some("WBA1K2C50EV000000"));
    assert_eq!(vin_rungs_asked(&car), vec![ZGW_ADDRESS, CAS_ADDRESS]);
}

#[test]
fn read_vin_rejects_the_all_zero_sentinel_and_keeps_walking() {
    let mut car = Car::new(vec![
        (ZGW_ADDRESS, VIN_REQUEST.to_vec(), echoed(0xF190, VIN_SENTINEL.as_bytes())),
        (CAS_ADDRESS, VIN_REQUEST.to_vec(), echoed(0xF190, b"WBA1K2C50EV000000")),
    ]);
    assert_eq!(ladder(&mut car).as_deref(), Some("WBA1K2C50EV000000"));
    assert_eq!(vin_rungs_asked(&car), vec![ZGW_ADDRESS, CAS_ADDRESS]);
}

#[test]
fn read_vin_walks_every_rung_once_then_gives_up() {
    let mut car = Car::new(vec![
        (ZGW_ADDRESS, VIN_REQUEST.to_vec(), vec![0x7F, 0x22, 0x31]),
        (CAS_ADDRESS, VIN_REQUEST.to_vec(), vec![0x7F, 0x22, 0x31]),
        (FRM_ADDRESS, VIN_REQUEST.to_vec(), vec![0x7F, 0x22, 0x31]),
    ]);
    assert_eq!(ladder(&mut car), None);
    assert_eq!(vin_rungs_asked(&car), vec![ZGW_ADDRESS, CAS_ADDRESS, FRM_ADDRESS]);
}

#[test]
fn verify_vin_reads_the_ladder_and_reports_the_outcome() {
    let mut car = Car::new(vec![(
        ZGW_ADDRESS,
        VIN_REQUEST.to_vec(),
        echoed(0xF190, b"WBA1K2C50EV000000"),
    )]);
    let found = ladder(&mut car);
    assert_eq!(compare_vin("WBA1K2C50EV000000", found.as_deref()), VinCheck::Match);
    assert_eq!(
        compare_vin("WBA1K2C50EV999999", found.as_deref()),
        VinCheck::Mismatch {
            expected: "WBA1K2C50EV999999".to_string(),
            found: "WBA1K2C50EV000000".to_string(),
        }
    );
}

#[test]
fn compare_vin_is_case_sensitive_and_does_not_trim() {
    let expected = "WBA1K2C50EV000000";
    assert_eq!(compare_vin(expected, Some(expected)), VinCheck::Match);
    assert!(matches!(
        compare_vin(expected, Some("wba1k2c50ev000000")),
        VinCheck::Mismatch { .. }
    ));
    assert!(matches!(
        compare_vin(expected, Some(" WBA1K2C50EV000000")),
        VinCheck::Mismatch { .. }
    ));
    assert!(matches!(
        compare_vin(expected, Some("WBA1K2C50EV000000 ")),
        VinCheck::Mismatch { .. }
    ));
}

#[test]
fn compare_vin_keeps_unreadable_distinct_from_mismatch() {
    let expected = "WBA1K2C50EV000000";
    assert_eq!(compare_vin(expected, None), VinCheck::Unreadable);
    assert_eq!(
        compare_vin(expected, Some("WBA1K2C50EV999999")),
        VinCheck::Mismatch {
            expected: expected.to_string(),
            found: "WBA1K2C50EV999999".to_string(),
        }
    );
    assert_ne!(
        compare_vin(expected, None),
        compare_vin(expected, Some("WBA1K2C50EV999999"))
    );
}

#[test]
fn compare_vin_treats_a_short_vin_as_unreadable() {
    assert_eq!(
        compare_vin("WBA1K2C50EV000000", Some("EV00000")),
        VinCheck::Unreadable
    );
}

#[test]
fn a_vin_is_readable_text() {
    assert_eq!(decode_vin(b"WBA1K2C50EV000000").as_deref(), Some("WBA1K2C50EV000000"));
    assert_eq!(decode_vin(&[0x00; 17]), None);
    assert_eq!(decode_vin(&[0xC3, 0x28]), None);
    assert_eq!(decode_vin(b""), None);
}

fn clamp(car: &mut Car) -> (Vec<u64>, Result<(), ClientError>) {
    let mut cycle = ClampCycle::cycle_terminal_15();
    let mut holds = Vec::new();
    loop {
        match cycle.next() {
            ClampStep::Send(request) => {
                let outcome = car.ask(request);
                cycle = cycle.record(outcome);
            }
            ClampStep::Sleep(ms) => {
                holds.push(ms);
                cycle = cycle.rested();
            }
            ClampStep::Done => return (holds, cycle.finish().expect("the cycle has ended")),
        }
    }
}

#[test]
fn cycle_terminal_15_sends_the_pinned_off_then_on_payloads() {
    let mut car = Car::new(vec![
        (0x40, KL15_OFF.to_vec(), vec![0x71, 0x01, 0x10, 0x01]),
        (0x40, KL15_ON.to_vec(), vec![0x71, 0x01, 0x10, 0x01]),
    ]);
    let (holds, result) = clamp(&mut car);
    assert!(result.is_ok());
    assert_eq!(holds, vec![15000]);
    assert_eq!(
        car.log,
        vec![
            (0x40, vec![0x31, 0x01, 0x10, 0x01, 0x06, 0x06, 0xA8]),
            (0x40, vec![0x31, 0x01, 0x10, 0x01, 0x0A, 0x0A, 0x43]),
        ],
        "the clamp payloads are CRC-protected literals and must go out verbatim"
    );
}

#[test]
fn a_failed_off_reports_terminal_15_still_up() {
    let mut car = Car::new(vec![(0x40, KL15_OFF.to_vec(), vec![0x7F, 0x31, 0x22])]);
    let (holds, result) = clamp(&mut car);
    let error = result.expect_err("the OFF was rejected");
    assert!(
        matches!(error, ClientError::ClampSwitch { phase: "off", restored: true, .. }),
        "got {error:?}"
    );
    assert!(holds.is_empty());
    assert_eq!(car.log.len(), 1, "only the OFF should have been attempted");
}

#[test]
fn a_failed_on_is_retried_once_and_then_warns_loudly() {
    let mut car = Car::new(vec![
        (0x40, KL15_OFF.to_vec(), vec![0x71, 0x01, 0x10, 0x01]),
        (0x40, KL15_ON.to_vec(), vec![0x7F, 0x31, 0x22]),
    ]);
    let (_, result) = clamp(&mut car);
    let error = result.expect_err("the ON was rejected twice");
    assert!(
        matches!(error, ClientError::ClampSwitch { phase: "on", restored: false, .. }),
        "got {error:?}"
    );
    let ons = car.log.iter().filter(|(_, p)| p.as_slice() == KL15_ON).count();
    assert_eq!(ons, 2, "a failed ON must be retried once before giving up");
}

fn gateway(last: u8) -> Gateway {
    Gateway { ip: [169, 254, 0, last], vin: None, raw: Vec::new() }
}

#[test]
fn exactly_one_gateway_is_chosen() {
    let bind = [169, 254, 0, 1];
    assert_eq!(select_gateway(vec![gateway(7)], bind).unwrap().ip, [169, 254, 0, 7]);
    assert!(matches!(
        select_gateway(Vec::new(), bind),
        Err(ClientError::NoGatewayFound { bind_ip: [169, 254, 0, 1] })
    ));
    assert!(matches!(
        select_gateway(vec![gateway(7), gateway(8)], bind),
        Err(ClientError::AmbiguousGateway { count: 2 })
    ));
}

#[test]
fn the_default_configuration_is_the_conventional_one() {
    let config = ClientConfig::default();
    assert_eq!(config.port, 6801);
    assert_eq!(config.tester, 0xF4);
    assert_eq!(config.connect_timeout, 5000);
    assert_eq!(config.read_timeout, 1200);
}

#[test]
fn a_copied_error_says_the_same() {
    let error = ClientError::ClampSwitch {
        phase: "on",
        restored: false,
        source: Box::new(ClientError::Negative { sid: 0x31, nrc: 0x22 }),
    };
    assert_eq!(format!("{:?}", copy_error(&error)), format!("{error:?}"));
}
