//! Tests of the whole-car scan, the verified clear and the clear sequence.
use klartext::client::actions::{ClampCycle, ClampStep, Script};
use klartext::client::error::{ClientError, Outcome};
use klartext::client::identity::{did_request, read_ecu_list};
use klartext::client::scan::{
    ClearAction, ClearSequence, ClearSequenceReport, ClearStep, EcuFaults, Scan, SequenceStep,
    VerifiedClear,
};
use klartext::client::services::{
    fault_request, info_request, read_dtcs, read_ecu_faults, Request,
};
use klartext::client::session::read_timeout;
use klartext::client::supplier::{supplier_clear_jobs, VehicleComposition, SUPPLIER_NOT_RUN};
use klartext::uds::{CLAMP_TARGET, KL15_OFF, KL15_ON};

/// A car that carries the whole sequence, and what it was sent.
struct Car {
    fitted: Vec<u8>,
    faulted: Vec<u8>,
    responders: Vec<u8>,
    unreadable: Vec<u8>,
    info: Vec<u8>,
    /// The fault records that a faulted ECU answers with.
    records: Vec<u8>,
    clamp_on: bool,
    cleared: Vec<u8>,
    log: Vec<(u8, Vec<u8>)>,
}

fn car(fitted: &[u8], faulted: &[u8], responders: &[u8]) -> Car {
    Car {
        fitted: fitted.to_vec(),
        faulted: faulted.to_vec(),
        responders: responders.to_vec(),
        unreadable: Vec::new(),
        info: Vec::new(),
        records: vec![0x00, 0x00, 0x02, 0x2F],
        clamp_on: true,
        cleared: Vec::new(),
        log: Vec::new(),
    }
}

/// One fitted ECU that stores two faults: one confirmed, one confirmed and failing.
fn two_faults() -> Car {
    let mut car = car(&[0x12], &[0x12], &[]);
    car.records = vec![0x00, 0x00, 0x01, 0x08, 0x00, 0x00, 0x02, 0x2F];
    car
}

impl Car {
    fn ask(&mut self, request: Request) -> Outcome {
        let target = request.target;
        self.log.push((target, request.uds.clone()));
        if !self.fitted.contains(&target) {
            return Err(read_timeout(150));
        }
        match request.uds.as_slice() {
            [0x10, 0x03] => Ok(vec![0x50, 0x03, 0x00, 0x32, 0x13, 0x88]),
            [0x14, 0xFF, 0xFF, 0xFF] => {
                self.cleared.push(target);
                Ok(vec![0x54])
            }
            [0x22, 0x3F, 0x07] if target == 0x10 => {
                let mut uds = vec![0x62, 0x3F, 0x07, 0x00, self.fitted.len() as u8];
                uds.extend_from_slice(&self.fitted);
                Ok(uds)
            }
            [0x31, 0x01, 0x40, 0x00, 0x00] if target == 0x10 => Ok(vec![0x71, 0x01, 0x40, 0x00]),
            [0x31, 0x01, 0x10, 0x01, ..]
                if target == CLAMP_TARGET
                    && (self.clamp_on || request.uds.as_slice() == KL15_OFF) =>
            {
                Ok(vec![0x71, 0x01, 0x10, 0x01])
            }
            [0x11, 0x01] => Ok(vec![0x51, 0x01]),
            [0x19, 0x02, 0x0C] if !self.unreadable.contains(&target) => {
                if self.faulted.contains(&target) && !self.cleared.contains(&target) {
                    let mut uds = vec![0x59, 0x02, 0x0C];
                    uds.extend_from_slice(&self.records);
                    Ok(uds)
                } else {
                    Ok(vec![0x59, 0x02, 0x0C])
                }
            }
            [0x22, 0x20, 0x00] if self.info.contains(&target) => {
                Ok(vec![0x62, 0x20, 0x00, 0xC9, 0x0D, 0x60, 0x2F])
            }
            [0x22, 0x20, 0x00] => Err(ClientError::Negative { sid: 0x22, nrc: 0x31 }),
            _ => Err(read_timeout(150)),
        }
    }

    fn scan(&mut self, addresses: &[u8]) -> Vec<EcuFaults> {
        let mut scan = Scan::scan_faults(addresses);
        while let Some(address) = scan.next() {
            let bundle = match read_dtcs(self.ask(fault_request(address))) {
                Ok(faults) => Ok(read_ecu_faults(faults, self.ask(info_request(address)))),
                Err(e) => Err(e),
            };
            scan.record(bundle);
        }
        scan.finish()
    }

    fn verified_clear(&mut self, target: u8) -> VerifiedClear {
        let mut clear = VerifiedClear::clear_faults_verified(target);
        loop {
            match clear.next() {
                ClearAction::ReadFaults => {
                    let faults = read_dtcs(self.ask(fault_request(target)));
                    clear.record_read(faults);
                }
                ClearAction::Clear => {
                    let mut script = Script::clear_all_dtcs(target);
                    while let Some(request) = script.next() {
                        let outcome = self.ask(request);
                        script.record(outcome);
                    }
                    clear.record_clear(script.finish().err());
                }
                ClearAction::Done => return clear,
            }
        }
    }

    fn clamp(&mut self) -> Result<(), ClientError> {
        let mut cycle = ClampCycle::cycle_terminal_15();
        loop {
            match cycle.next() {
                ClampStep::Send(request) => {
                    let outcome = self.ask(request);
                    cycle = cycle.record(outcome);
                }
                ClampStep::Sleep(_) => cycle = cycle.rested(),
                ClampStep::Done => return cycle.finish().unwrap(),
            }
        }
    }

    /// The whole sequence; `fail` is what every supplier job answers.
    fn clear_all(
        &mut self,
        addresses: &[u8],
        vehicle: &VehicleComposition,
        runner: Option<Option<&str>>,
    ) -> (ClearSequenceReport, Vec<(String, String, String)>, Vec<u64>) {
        let mut sequence = ClearSequence::clear_faults_all(addresses, vehicle, runner.is_some());
        let mut jobs = Vec::new();
        let mut rests = Vec::new();
        loop {
            match sequence.next() {
                SequenceStep::Scan(list) => {
                    let found = self.scan(&list);
                    sequence.record_scan(found);
                }
                SequenceStep::Broadcast => {
                    self.log.push((0xDF, vec![0x14, 0xFF, 0xFF, 0xFF]));
                    self.cleared.extend_from_slice(&self.responders);
                    sequence.record_broadcast(Ok(self.responders.clone()));
                }
                SequenceStep::ClearEcu(address) => {
                    let report = self.verified_clear(address).finish();
                    sequence.record_straggler(report);
                }
                SequenceStep::RunJob(job) => {
                    jobs.push((job.ecu.to_string(), job.job.to_string(), job.arg.to_string()));
                    let error = match runner {
                        Some(Some(message)) => Some(message.to_string()),
                        _ => None,
                    };
                    sequence.record_job(error);
                }
                SequenceStep::ClearGatewayStore => {
                    let outcome = self
                        .ask(klartext::client::actions::clear_gateway_combined_store())
                        .map(|_| ());
                    sequence.record_store(outcome);
                }
                SequenceStep::CycleTerminal15 => {
                    let result = self.clamp();
                    sequence.record_clamp(result);
                }
                SequenceStep::Sleep(ms) => {
                    rests.push(ms);
                    sequence.rested();
                }
                SequenceStep::ReadEcuList => {
                    let list = read_ecu_list(self.ask(did_request(0x10, 0x3F07)));
                    sequence.record_list(list.map(|l| l.addresses));
                }
                SequenceStep::Done => return (sequence.finish(), jobs, rests),
            }
        }
    }
}

#[test]
fn scan_faults_surfaces_every_returned_fault_with_a_presence_verdict() {
    let faults = two_faults().scan(&[0x12]);
    assert_eq!(faults.len(), 1);
    assert_eq!(faults[0].address, 0x12);
    assert_eq!(faults[0].faults.len(), 2);
    assert!(faults[0].error.is_none());
    assert_eq!(faults[0].faults[0].status, 0x08);
    assert_eq!(faults[0].faults[1].status, 0x2F);
}

#[test]
fn clear_faults_verified_reads_clears_and_confirms_clean() {
    let report = two_faults().verified_clear(0x12).finish();
    assert_eq!(report.before.len(), 2);
    assert!(report.after_relevant.is_empty());
    assert!(report.verified_clean);
    assert!(report.error.is_none());
}

#[test]
fn an_ecu_that_cannot_be_read_is_not_cleared() {
    let mut silent = car(&[0x12], &[0x12], &[]);
    silent.unreadable = vec![0x12];
    let report = silent.verified_clear(0x12).finish();
    assert!(!report.verified_clean);
    let failure = report.error.expect("the read failed");
    assert_eq!(failure.step, ClearStep::PreRead);
    assert_eq!(failure.step.label(), "pre-read failed: ");
    assert!(silent.log.iter().all(|(_, p)| p[0] != 0x14));
}

#[test]
fn scan_faults_records_a_silent_listed_ecu_as_error() {
    let faults = two_faults().scan(&[0x12, 0x18]);
    assert_eq!(faults.len(), 2);
    assert_eq!(faults[0].address, 0x12);
    assert!(faults[0].error.is_none());
    assert_eq!(faults[0].faults.len(), 2);
    assert!(!faults[0].info_supported);
    assert!(faults[0].info.is_empty());
    assert_eq!(faults[1].address, 0x18);
    assert!(faults[1].error.is_some());
    assert!(faults[1].faults.is_empty());
    assert!(faults[1].info.is_empty());
    assert!(!faults[1].info_supported);
}

#[test]
fn scan_faults_merges_info_memory_entries_when_supported() {
    let mut with_info = car(&[0x12], &[0x12], &[]);
    with_info.info = vec![0x12];
    with_info.records = vec![0x4A, 0x12, 0x34, 0x08];
    let scanned = with_info.scan(&[0x12]);
    assert_eq!(scanned.len(), 1);
    assert!(scanned[0].error.is_none());
    assert_eq!(scanned[0].faults.len(), 1);
    assert_eq!(scanned[0].info.len(), 1);
    assert_eq!(scanned[0].info[0].code, [0xC9, 0x0D, 0x60]);
    assert!(scanned[0].info_supported);
}

#[test]
fn clear_sequence_broadcasts_first_then_clears_only_the_stragglers() {
    let mut car = car(&[0x10, 0x12, 0x40], &[0x12, 0x40], &[0x12]);
    let (report, _, rests) =
        car.clear_all(&[0x10, 0x12, 0x40], &VehicleComposition::default(), None);

    assert_eq!(report.functional.as_ref().unwrap(), &vec![0x12]);
    let stragglers: Vec<u8> = report.stragglers.iter().map(|s| s.address).collect();
    assert_eq!(stragglers, vec![0x40]);

    let clears: Vec<(u8, Vec<u8>)> =
        car.log.iter().filter(|(_, p)| p.first() == Some(&0x14)).cloned().collect();
    assert_eq!(
        clears,
        vec![(0xDF, vec![0x14, 0xFF, 0xFF, 0xFF]), (0x40, vec![0x14, 0xFF, 0xFF, 0xFF])]
    );

    let spine: Vec<(u8, u8)> = car
        .log
        .iter()
        .filter(|(_, p)| matches!(p.as_slice(), [0x14, ..] | [0x31, ..] | [0x22, 0x3F, 0x07]))
        .map(|(t, p)| (*t, p[0]))
        .collect();
    assert_eq!(
        spine,
        vec![
            (0xDF, 0x14), // the functional clear
            (0x40, 0x14), // the straggler
            (0x10, 0x31), // the gateway store
            (0x40, 0x31), // terminal 15 off
            (0x40, 0x31), // terminal 15 on
            (0x10, 0x22), // the re-identification
        ]
    );

    assert!(report.gateway_zfs.is_ok());
    assert!(report.clamp_cycle.is_ok());
    assert_eq!(report.reident.as_ref().unwrap(), &vec![0x10, 0x12, 0x40]);
    assert_eq!(report.verification.len(), 3);
    assert_eq!(rests, vec![500, 200]);
}

fn fem20_car() -> VehicleComposition {
    VehicleComposition { sgbds: vec!["FEM_20".to_string()], ..VehicleComposition::default() }
}

#[test]
fn supplier_jobs_are_run_when_a_runner_is_supplied() {
    let mut car = car(&[0x10, 0x12, 0x40], &[0x12], &[0x12]);
    let (report, jobs, _) = car.clear_all(&[0x10, 0x12, 0x40], &fem20_car(), Some(None));
    assert_eq!(
        jobs,
        vec![
            ("FEM_20".into(), "IS_LOESCHEN_TMS".into(), "0x01".into()),
            ("FEM_20".into(), "IS_LOESCHEN_TMS".into(), "0x02".into()),
        ],
        "the same job twice with different arguments"
    );
    assert!(
        report.supplier_jobs.iter().all(|j| j.not_run.is_none()),
        "a job that ran must not be reported not-run: {:?}",
        report.supplier_jobs
    );
}

#[test]
fn a_failed_supplier_job_is_recorded_and_the_sequence_continues() {
    let mut car = car(&[0x10, 0x12, 0x40], &[0x12], &[0x12]);
    let (report, _, _) =
        car.clear_all(&[0x10, 0x12, 0x40], &fem20_car(), Some(Some("ECU refused")));
    assert!(
        report.supplier_jobs.iter().all(|j| j.not_run.as_deref() == Some("ECU refused")),
        "the runner's error must be recorded against each job"
    );
    assert!(report.clamp_cycle.is_ok(), "the sequence must carry on");
}

#[test]
fn without_a_runner_every_supplier_job_says_so() {
    let mut car = car(&[0x10, 0x12, 0x40], &[0x12], &[0x12]);
    let (report, jobs, _) = car.clear_all(&[0x10, 0x12, 0x40], &fem20_car(), None);
    assert!(jobs.is_empty());
    assert_eq!(report.supplier_jobs.len(), 2);
    assert!(report.supplier_jobs.iter().all(|j| j.not_run.as_deref() == Some(SUPPLIER_NOT_RUN)));
}

#[test]
fn clear_sequence_always_cycles_terminal_15() {
    let mut car = car(&[0x10, 0x12, 0x40], &[], &[0x12]);
    let (report, _, _) =
        car.clear_all(&[0x10, 0x12, 0x40], &VehicleComposition::default(), None);
    assert!(report.clamp_cycle.is_ok());
    let clamp_frames: Vec<Vec<u8>> = car
        .log
        .iter()
        .filter(|(t, p)| *t == CLAMP_TARGET && p.starts_with(&[0x31, 0x01, 0x10, 0x01]))
        .map(|(_, p)| p.clone())
        .collect();
    assert_eq!(clamp_frames, vec![KL15_OFF.to_vec(), KL15_ON.to_vec()]);
}

#[test]
fn clear_sequence_on_a_clean_car_sends_no_physical_clear() {
    let mut car = car(&[0x10, 0x12, 0x40], &[], &[0x12]);
    let (report, _, _) =
        car.clear_all(&[0x10, 0x12, 0x40], &VehicleComposition::default(), None);
    assert!(report.stragglers.is_empty());
    let clears: Vec<(u8, Vec<u8>)> =
        car.log.iter().filter(|(_, p)| p.first() == Some(&0x14)).cloned().collect();
    assert_eq!(clears, vec![(0xDF, vec![0x14, 0xFF, 0xFF, 0xFF])]);
    assert!(report.clamp_cycle.is_ok());
    assert!(report.gateway_zfs.is_ok());
}

#[test]
fn clear_sequence_never_clears_an_ecu_it_could_not_pre_read() {
    let mut car = car(&[0x10, 0x12, 0x18], &[0x12], &[]);
    car.unreadable = vec![0x18];
    let (report, _, _) =
        car.clear_all(&[0x10, 0x12, 0x18], &VehicleComposition::default(), None);
    let cleared_targets: Vec<u8> =
        car.log.iter().filter(|(_, p)| p.first() == Some(&0x14)).map(|(t, _)| *t).collect();
    assert!(cleared_targets.contains(&0x12), "0x12 must have been cleared");
    assert!(!cleared_targets.contains(&0x18), "an unread ECU must never be cleared");

    let verdicts = report.ecu_verdicts();
    let unreadable = verdicts.iter().find(|v| v.address == 0x18).unwrap();
    assert!(!unreadable.verified_clean, "unreadable is not clean");
    assert!(unreadable.error.is_some());
    assert!(!unreadable.cleared_physically, "its straggler pass stopped before the clear");
}

#[test]
fn ecu_verdicts_diff_before_against_after_per_ecu() {
    let mut car = car(&[0x10, 0x12, 0x40], &[0x12, 0x40], &[0x12]);
    let (report, _, _) =
        car.clear_all(&[0x10, 0x12, 0x40], &VehicleComposition::default(), None);
    let verdicts = report.ecu_verdicts();
    let by = |a: u8| verdicts.iter().find(|v| v.address == a).unwrap();

    assert_eq!(by(0x12).before.len(), 1);
    assert!(by(0x12).answered_broadcast);
    assert!(!by(0x12).cleared_physically);
    assert!(by(0x12).verified_clean);

    assert_eq!(by(0x40).before.len(), 1);
    assert!(!by(0x40).answered_broadcast);
    assert!(by(0x40).cleared_physically);
    assert!(by(0x40).verified_clean);

    assert!(by(0x10).before.is_empty());
    assert!(by(0x10).verified_clean);
}

#[test]
fn clear_sequence_continues_past_a_failed_gateway_store() {
    let mut car = car(&[0x12, 0x40], &[0x12], &[]);
    let (report, _, _) = car.clear_all(&[0x12, 0x40], &VehicleComposition::default(), None);
    assert!(report.gateway_zfs.is_err(), "the store clear must have failed");
    assert!(
        report.clamp_cycle.is_ok(),
        "a failed gateway store must not abort the sequence"
    );
    assert!(report.reident.is_err());
    assert_eq!(report.verification.len(), 2);
    let clamped =
        car.log.iter().any(|(t, p)| *t == CLAMP_TARGET && p.as_slice() == KL15_ON);
    assert!(clamped, "terminal 15 must still be restored");
}

#[test]
fn a_failed_clamp_restore_reports_that_terminal_15_may_be_down() {
    let mut safe = car(&[0x10, 0x12], &[], &[0x12]);
    let (report, _, _) = safe.clear_all(&[0x10, 0x12], &VehicleComposition::default(), None);
    let failure = report.clamp_cycle.expect_err("the OFF command must fail");
    assert!(failure.restored, "a failure before the drop must report terminal 15 as up");

    let mut stranded = car(&[0x10, 0x12, 0x40], &[], &[0x12]);
    stranded.clamp_on = false;
    let (report, _, _) =
        stranded.clear_all(&[0x10, 0x12, 0x40], &VehicleComposition::default(), None);
    let failure = report.clamp_cycle.expect_err("the ON command must fail");
    assert!(!failure.restored, "terminal 15 is DOWN and the report must say so");
    assert!(stranded.log.iter().any(|(t, p)| *t == CLAMP_TARGET && p.as_slice() == KL15_OFF));
}

#[test]
fn clear_faults_all_continues_past_a_failed_ecu_and_never_resets() {
    let mut car = car(&[0x10, 0x40], &[0x40], &[]);
    let (report, _, _) =
        car.clear_all(&[0x10, 0x40, 0x18], &VehicleComposition::default(), None);
    let verdicts = report.ecu_verdicts();
    let by = |a: u8| verdicts.iter().find(|v| v.address == a).unwrap();
    assert!(by(0x18).error.is_some(), "0x18 must have failed");
    assert!(!by(0x18).verified_clean);
    assert!(by(0x40).verified_clean, "the sequence must continue past 0x18's failure");
    assert!(
        car.log.iter().all(|(_, payload)| payload.first() != Some(&0x11)),
        "no ECU reset to any address"
    );
}

fn with_sgbds(names: &[&str]) -> VehicleComposition {
    VehicleComposition {
        sgbds: names.iter().map(|s| s.to_string()).collect(),
        ..VehicleComposition::default()
    }
}

fn planned(vehicle: &VehicleComposition) -> Vec<(&'static str, &'static str, &'static str)> {
    supplier_clear_jobs(vehicle)
        .into_iter()
        .map(|r| (r.job.ecu, r.job.job, r.job.arg))
        .collect()
}

#[test]
fn supplier_gates_fire_nothing_on_a_car_without_those_ecus() {
    assert!(planned(&with_sgbds(&["d72n47a0", "cas4_2", "zgw_01"])).is_empty());
    assert!(planned(&VehicleComposition::default()).is_empty());
}

#[test]
fn fem_20_gate_fires_the_same_job_with_both_arguments() {
    assert_eq!(
        planned(&with_sgbds(&["FEM_20"])),
        vec![("FEM_20", "IS_LOESCHEN_TMS", "0x01"), ("FEM_20", "IS_LOESCHEN_TMS", "0x02")]
    );
}

#[test]
fn d_kbm_gate_needs_an_frm_and_salapa_524_not_d_kbm_itself() {
    let with_sa = |sgbds: &[&str], sa: Option<&[&str]>| VehicleComposition {
        sgbds: sgbds.iter().map(|s| s.to_string()).collect(),
        sa_codes: sa.map(|c| c.iter().map(|s| s.to_string()).collect()),
        ..VehicleComposition::default()
    };
    let fires = vec![
        ("D_KBM", "IS_LOESCHEN_SMC_L_LEAR", ""),
        ("D_KBM", "IS_LOESCHEN_SMC_R_LEAR", ""),
    ];
    assert_eq!(planned(&with_sa(&["FRM_70"], Some(&["524"]))), fires);
    assert_eq!(planned(&with_sa(&["FRM_87"], Some(&["524", "6NS"]))), fires);
    assert!(planned(&with_sa(&["FRM_70"], Some(&["6NS"]))).is_empty());
    assert!(planned(&with_sa(&["ALC_60"], Some(&["524"]))).iter().all(|j| j.0 != "D_KBM"));
    assert!(planned(&with_sa(&["D_KBM"], Some(&["524"]))).is_empty());
    assert!(planned(&with_sa(&["FRM_70"], None)).is_empty());
}

#[test]
fn d_lm_gate_needs_an_ahl_lamp_module_not_d_lm_itself() {
    let fires = vec![
        ("D_LM", "IS_LOESCHEN_SMC_L_LEAR", ""),
        ("D_LM", "IS_LOESCHEN_SMC_R_LEAR", ""),
    ];
    assert_eq!(planned(&with_sgbds(&["LM_AHL"])), fires);
    assert_eq!(planned(&with_sgbds(&["LM_AHL_2"])), fires);
    assert!(planned(&with_sgbds(&["D_LM"])).is_empty());
}

#[test]
fn d_0066_is_a_group_lookup_and_alc_60_is_a_variant_lookup() {
    let group = |names: &[&str]| VehicleComposition {
        groups: names.iter().map(|s| s.to_string()).collect(),
        ..VehicleComposition::default()
    };
    let fires =
        vec![("D_0066", "IS_LOESCHEN_SMC_L", ""), ("D_0066", "IS_LOESCHEN_SMC_R", "")];
    assert_eq!(planned(&group(&["D_0066"])), fires);
    assert_eq!(planned(&group(&["D_0044|D_0066"])), fires);
    assert!(planned(&with_sgbds(&["D_0066"])).is_empty());
    assert_eq!(
        planned(&with_sgbds(&["ALC_60"])),
        vec![
            ("ALC_60", "IS_LOESCHEN_SMC_L_LEAR", ""),
            ("ALC_60", "IS_LOESCHEN_SMC_R_LEAR", ""),
        ]
    );
    assert!(planned(&group(&["ALC_60"])).is_empty());
}

#[test]
fn supplier_jobs_keep_istas_order_and_report_that_none_were_transmitted() {
    let vehicle = VehicleComposition {
        sgbds: ["FEM_20", "FRM3", "ALC_60", "LM_AHL"].iter().map(|s| s.to_string()).collect(),
        groups: vec!["D_0066".to_string()],
        sa_codes: None,
    };
    let reports = supplier_clear_jobs(&vehicle);
    assert_eq!(
        reports.iter().map(|r| r.job.ecu).collect::<Vec<_>>(),
        vec![
            "FEM_20", "FEM_20", "FRM3", "FRM3", "D_0066", "D_0066", "ALC_60", "ALC_60", "D_LM",
            "D_LM",
        ]
    );
    assert!(
        reports.iter().all(|r| r.not_run.is_some()),
        "no supplier job is executable yet: every one must say so"
    );
}

#[test]
fn more_of_a_car_never_plans_less() {
    let small = with_sgbds(&["FRM_70", "FEM_20"]);
    let mut large = with_sgbds(&["FEM_20", "ALC_60", "FRM_70"]);
    large.sa_codes = Some(vec!["524".to_string()]);
    large.groups = vec!["D_0066".to_string()];
    let jobs = planned(&large);
    assert!(planned(&small).iter().all(|job| jobs.contains(job)));
    assert_eq!((planned(&small).len(), jobs.len()), (2, 8));
}

#[test]
fn no_general_info_memory_clear_is_ever_planned() {
    let everything = VehicleComposition {
        sgbds: ["FEM_20", "FRM3", "FRM_70", "FRM_87", "ALC_60", "LM_AHL", "LM_AHL_2"]
            .iter()
            .map(|s| s.to_string())
            .collect(),
        groups: ["D_0066", "G_ZGW"].iter().map(|s| s.to_string()).collect(),
        sa_codes: Some(vec!["524".to_string()]),
    };
    for report in supplier_clear_jobs(&everything) {
        assert_ne!(report.job.job, "IS_LOESCHEN_FUNKTIONAL");
        assert_ne!(report.job.job, "IS_LOESCHEN");
    }
}
