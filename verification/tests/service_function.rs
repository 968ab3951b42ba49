//! Tests of the control catalog of an ECU.
use klartext::semantic::service_function::{
    build_cbs_read_request, build_cbs_reset_request, cbs_derivation, parse_cbs, parse_labelled,
    Category, Derivation, Risk, ServiceFunctions, CALIBRATION_REASON, LERNWERTE_REASON,
    STELLER_REASON,
};
use klartext::sgbd::prg::Table;

fn table(name: &str, columns: &[&str], rows: &[&[&str]]) -> Table {
    Table {
        name: name.to_string(),
        columns: columns.iter().map(|s| (*s).to_string()).collect(),
        rows: rows.iter().map(|r| r.iter().map(|s| (*s).to_string()).collect()).collect(),
    }
}

fn cbs_table() -> Table {
    table(
        "CBSKENNUNG",
        &["NR", "CBS_K", "CBS_K_TEXT"],
        &[&["0x01", "Oel", "Motoroel"], &["0x02", "Br_v", "Bremsbelag vorne"]],
    )
}

fn lernwerte_table() -> Table {
    table(
        "LERNWERTE_RUECK",
        &["LABEL", "TEXT", "LID", "JOB_PROG", "VALUE"],
        &[&["IBSRE", "Rücksetzen IBS-Erkennung", "0xA0F7", "LERNWERTE_RUECKSETZEN", "0x00"]],
    )
}

fn steller_table() -> Table {
    table(
        "STELLER",
        &["LABEL", "TEXT", "LID", "JOB_EIN", "JOB_AUS"],
        &[&["DRO", "Drosselklappe", "0x602A", "STEUERN_SELECTIV", "STEUERN_ENDE_SELECTIV"]],
    )
}

#[test]
fn cbs_rows_become_low_risk_derived_reset_functions() {
    let mut out = Vec::new();
    parse_cbs(&cbs_table(), &mut out);
    assert_eq!(out.len(), 2);
    assert_eq!(out[0].label, "Oel");
    assert_eq!(out[0].name, "Motoroel");
    assert_eq!(out[0].id, 0x01);
    assert_eq!(out[0].category, Category::CbsReset);
    assert_eq!(out[0].risk(), Risk::Low);
    assert!(out[0].is_derived());
    assert_eq!(
        out[0].request(),
        Some(
            [
                0x2E, 0x10, 0x01, 0x01, 0x01, 0x64, 0x1F, 0x80, 0x00, 0x0F, 0xFF, 0x0F, 0x3F,
                0xFF, 0x00
            ]
            .as_slice()
        )
    );
    assert!(out[0].derivation.citation().unwrap().contains("CBS_RESET"));
}

#[test]
fn learned_value_reset_is_low_risk_but_not_derivable() {
    let mut out = Vec::new();
    parse_labelled(&lernwerte_table(), Category::LearnedValueReset, LERNWERTE_REASON, &mut out);
    assert_eq!(out.len(), 1);
    assert_eq!(out[0].label, "IBSRE");
    assert_eq!(out[0].id, 0xA0F7);
    assert_eq!(out[0].risk(), Risk::Low);
    assert!(!out[0].is_derived());
    assert_eq!(out[0].request(), None);
    assert!(out[0].derivation.reason().unwrap().contains("read-modify-write"));
}

#[test]
fn actuator_control_is_high_risk_and_not_derivable() {
    let mut out = Vec::new();
    parse_labelled(&steller_table(), Category::ActuatorControl, STELLER_REASON, &mut out);
    assert_eq!(out.len(), 1);
    assert_eq!(out[0].label, "DRO");
    assert_eq!(out[0].id, 0x602A);
    assert_eq!(out[0].category, Category::ActuatorControl);
    assert_eq!(out[0].risk(), Risk::High);
    assert!(!out[0].is_derived());
}

#[test]
fn category_risk_split_is_blast_radius() {
    assert_eq!(Category::CbsReset.risk(), Risk::Low);
    assert_eq!(Category::LearnedValueReset.risk(), Risk::Low);
    assert_eq!(Category::StatisticReset.risk(), Risk::Low);
    assert_eq!(Category::ActuatorControl.risk(), Risk::High);
    assert_eq!(Category::Calibration.risk(), Risk::High);
}

#[test]
fn derived_reset_is_injected_only_when_its_job_is_present() {
    let present = ServiceFunctions::from_tables_and_jobs(&[], |job: &str| {
        job == "STEUERN_MSA2HISTORIERESET"
    });
    let msa2 = present.by_label("MSA2Hist").expect("MSA2 reset present");
    assert_eq!(msa2.category, Category::StatisticReset);
    assert_eq!(msa2.risk(), Risk::Low);
    assert!(msa2.is_derived());
    assert_eq!(msa2.request(), Some([0x2E, 0x5F, 0x84].as_slice()));

    let absent = ServiceFunctions::from_tables_and_jobs(&[], |_: &str| false);
    assert!(absent.by_label("MSA2Hist").is_none());
    assert!(absent.is_empty());
}

#[test]
fn llketa_reset_is_a_routine_control_frame() {
    let funcs =
        ServiceFunctions::from_tables_and_jobs(&[], |job: &str| job == "STEUERN_LLKETA_RESET");
    let llketa = funcs.by_label("LLKETA").expect("LLKETA present");
    assert_eq!(llketa.request(), Some([0x31, 0x01, 0xF0, 0x65].as_slice()));
}

#[test]
fn every_derived_reset_is_a_single_frame() {
    let funcs = ServiceFunctions::from_tables_and_jobs(&[], |_: &str| true);
    let frames: Vec<&[u8]> = funcs.all().iter().map(|f| f.request().unwrap()).collect();
    assert_eq!(
        frames,
        vec![
            [0x2E, 0x5F, 0x84].as_slice(),
            [0x2E, 0x5F, 0xF5, 0x04].as_slice(),
            [0x2E, 0x62, 0x00, 0x01].as_slice(),
            [0x31, 0x01, 0xF0, 0x65].as_slice(),
        ]
    );
}

#[test]
fn from_tables_unions_all_control_tables_without_jobs() {
    let funcs = ServiceFunctions::from_tables(&[cbs_table(), lernwerte_table(), steller_table()]);
    assert_eq!(funcs.len(), 4);
    assert_eq!(funcs.by_category(Category::CbsReset).len(), 2);
    assert_eq!(funcs.by_category(Category::StatisticReset).len(), 0);
    assert!(funcs.by_label("IBSRE").unwrap().risk() == Risk::Low);
    assert!(funcs.by_label("DRO").unwrap().risk() == Risk::High);
}

#[test]
fn joined_tables_give_the_joined_functions() {
    let (first, second) = ([cbs_table()], [lernwerte_table(), steller_table()]);
    let joined = [cbs_table(), lernwerte_table(), steller_table()];
    let all = ServiceFunctions::from_tables_and_jobs(&joined, |_| true);
    let mut expected = ServiceFunctions::from_tables(&first).all().to_vec();
    expected.extend(
        ServiceFunctions::from_tables_and_jobs(&second, |_| true).all().iter().cloned(),
    );
    assert_eq!(all.all(), expected.as_slice());
}

#[test]
fn ecu_without_control_tables_or_jobs_yields_empty_catalog() {
    let funcs = ServiceFunctions::from_tables_and_jobs(
        &[table("SG_FUNKTIONEN", &["ARG", "ID"], &[&["ITMOT", "0x4BC3"]])],
        |_: &str| false,
    );
    assert!(funcs.is_empty());
    assert!(ServiceFunctions::default().is_empty());
}

#[test]
fn rows_with_unparsable_id_are_skipped() {
    let mut out = Vec::new();
    parse_cbs(
        &table("CBSKENNUNG", &["NR", "CBS_K", "CBS_K_TEXT"], &[&["-", "x", "y"]]),
        &mut out,
    );
    assert!(out.is_empty());
}

#[test]
fn blank_or_separator_label_rows_are_skipped() {
    let funcs = ServiceFunctions::from_tables(&[table(
        "LERNWERTE_RUECK",
        &["LABEL", "TEXT", "LID"],
        &[&["--", "-", "0xA000"], &["IBSRE", "Rücksetzen IBS-Erkennung", "0xA0F7"]],
    )]);
    assert_eq!(funcs.len(), 1);
    assert_eq!(funcs.all()[0].label, "IBSRE");
}

#[test]
fn cbs_reset_request_for_engine_oil_is_the_derived_frame() {
    assert_eq!(
        build_cbs_reset_request(0x01),
        vec![
            0x2E, 0x10, 0x01, 0x01, 0x01, 0x64, 0x1F, 0x80, 0x00, 0x0F, 0xFF, 0x0F, 0x3F, 0xFF,
            0x00
        ]
    );
}

#[test]
fn cbs_reset_request_splices_the_component_id() {
    assert_eq!(build_cbs_reset_request(0x03)[4], 0x03);
    assert_eq!(build_cbs_reset_request(0x03).len(), 15);
}

#[test]
fn cbs_read_back_request_is_22_1001() {
    assert_eq!(build_cbs_read_request(), [0x22, 0x10, 0x01]);
}

#[test]
fn a_wide_cbs_id_has_no_frame() {
    assert!(cbs_derivation(0xFF).is_derived());
    let wide = cbs_derivation(0x100);
    assert_eq!(wide.request(), None);
    assert_eq!(wide.citation(), None);
    assert!(wide.reason().unwrap().contains("single-byte"));
}

#[test]
fn a_derivation_says_how_sure_it_is() {
    let derived = cbs_derivation(0x01);
    let refused = Derivation::NotDerivable { reason: CALIBRATION_REASON };
    assert_ne!(derived.status(), refused.status());
    assert_eq!(derived.reason(), None);
    assert_eq!(refused.reason(), Some(CALIBRATION_REASON));
}
