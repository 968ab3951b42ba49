//! Tests of freeze-frame decoding.
use klartext::semantic::catalog::EnvCondLabel;
use klartext::semantic::measurement::{Factor, RawNumber};
use klartext::semantic::snapshot::{
    clean_unit, non_placeholder, parse_u8, resolve_uwtyp, ExtDataDefs, FreezeFrameDefs, Repr,
    SnapshotDefs, SnapshotField,
};
use klartext::sgbd::prg::Table;
use klartext::uds::DtcRecordRegion;

fn approx(actual: f64, expected: f64) {
    assert!((actual - expected).abs() < 1e-6, "expected {expected}, got {actual}");
}

fn factor(f: &Factor, blank: f64) -> f64 {
    match f {
        Factor::Blank => blank,
        Factor::Number(text) => text.trim().parse::<f64>().unwrap(),
    }
}

/// The scaled value of a field.
fn value(field: &SnapshotField) -> Option<f64> {
    let n = match field.number? {
        RawNumber::Unsigned(v) => v as f64,
        RawNumber::FloatBits(bits) => f64::from(f32::from_bits(bits)),
    };
    let div = factor(&field.div, 1.0);
    if div == 0.0 {
        return None;
    }
    Some(n * factor(&field.mul, 1.0) / div + factor(&field.add, 0.0))
}

fn env_table(name: &str, rows: Vec<Vec<&str>>) -> Table {
    let columns = ["UWNR", "UWTEXT", "UW_EINH", "L/H", "UWTYP", "NAME", "MUL", "DIV", "ADD"];
    Table {
        name: name.to_string(),
        columns: columns.iter().map(|s| (*s).to_string()).collect(),
        rows: rows.into_iter().map(|r| r.into_iter().map(str::to_string).collect()).collect(),
    }
}

fn defs_from(rows: Vec<Vec<&str>>) -> SnapshotDefs {
    SnapshotDefs::from_tables(&[env_table("FUMWELTTEXTE", rows)])
}

fn region(body: Vec<u8>) -> DtcRecordRegion {
    DtcRecordRegion { dtc: [0x24, 0x00, 0x00], status: 0x08, body }
}

const COOLANT: [&str; 9] = [
    "0x5205",
    "Kühlmitteltemperatur",
    "degC",
    "-",
    "unsigned char",
    "-",
    "1.000000",
    "1",
    "-40.000000",
];
const RPM: [&str; 9] = [
    "0x5955",
    "Motordrehzahl",
    "rpm",
    "-",
    "unsigned int",
    "-",
    "0.500000",
    "1",
    "0.000000",
];
const KM: [&str; 9] = ["0x1700", "KM_STAND", "0-n", "-", "0xFFFFFF", "-", "1", "1", "0.000000"];

#[test]
fn resolve_uwtyp_handles_type_names_and_masks() {
    assert_eq!(resolve_uwtyp("unsigned char"), Some((1, Repr::Unsigned, None)));
    assert_eq!(resolve_uwtyp("u char"), Some((1, Repr::Unsigned, None)));
    assert_eq!(resolve_uwtyp("unsigned int"), Some((2, Repr::Unsigned, None)));
    assert_eq!(resolve_uwtyp("motorola float"), Some((4, Repr::Float, None)));
    assert_eq!(resolve_uwtyp("0xFF"), Some((1, Repr::Unsigned, Some(0xFF))));
    assert_eq!(resolve_uwtyp("0xFFFFFF"), Some((3, Repr::Unsigned, Some(0xFF_FFFF))));
    assert_eq!(resolve_uwtyp("0xFFFFFFFF"), Some((4, Repr::Unsigned, Some(0xFFFF_FFFF))));
    assert_eq!(resolve_uwtyp("signed int"), None);
    assert_eq!(resolve_uwtyp("0xF"), None);
}

#[test]
fn decode_snapshot_scales_coolant_and_rpm() {
    let defs = defs_from(vec![COOLANT.to_vec(), RPM.to_vec()]);
    let r = region(vec![0x01, 0x02, 0x52, 0x05, 0x7B, 0x59, 0x55, 0x10, 0x68]);
    let decoded = defs.decode(&r, &[]);
    assert_eq!(decoded.undecoded_tail, None);
    assert_eq!(decoded.fields.len(), 2);
    assert_eq!(decoded.fields[0].uwnr, 0x5205);
    assert_eq!(decoded.fields[0].label, "Kühlmitteltemperatur");
    assert_eq!(decoded.fields[0].unit.as_deref(), Some("degC"));
    approx(value(&decoded.fields[0]).unwrap(), 83.0);
    approx(value(&decoded.fields[1]).unwrap(), 2100.0);
}

#[test]
fn decode_snapshot_mileage_sentinel_is_not_available() {
    let defs = defs_from(vec![KM.to_vec()]);
    let present = defs.decode(&region(vec![0x01, 0x01, 0x17, 0x00, 0x02, 0x2C, 0x2A]), &[]);
    assert!(present.fields[0].available);
    approx(value(&present.fields[0]).unwrap(), 142_378.0);
    let absent = defs.decode(&region(vec![0x01, 0x01, 0x17, 0x00, 0xFF, 0xFF, 0xFF]), &[]);
    assert!(!absent.fields[0].available);
    assert_eq!(value(&absent.fields[0]), None);
    assert_eq!(absent.fields[0].raw, vec![0xFF, 0xFF, 0xFF]);
}

#[test]
fn decode_snapshot_stops_at_unknown_identifier() {
    let defs = defs_from(vec![COOLANT.to_vec()]);
    let r = region(vec![0x01, 0x02, 0x52, 0x05, 0x7B, 0x99, 0x99, 0xAB, 0xCD]);
    let decoded = defs.decode(&r, &[]);
    assert_eq!(decoded.fields.len(), 1);
    assert_eq!(decoded.undecoded_tail, Some(vec![0x99, 0x99, 0xAB, 0xCD]));
}

#[test]
fn decode_snapshot_empty_region_is_no_fields() {
    let defs = defs_from(vec![COOLANT.to_vec()]);
    let decoded = defs.decode(&region(vec![]), &[]);
    assert!(decoded.fields.is_empty());
    assert_eq!(decoded.undecoded_tail, None);
}

#[test]
fn decode_snapshot_unlabeled_falls_back_to_sgbd_text() {
    let defs = defs_from(vec![RPM.to_vec()]);
    let decoded = defs.decode(&region(vec![0x01, 0x01, 0x59, 0x55, 0x10, 0x68]), &[]);
    assert_eq!(decoded.fields[0].label, "Motordrehzahl");
}

#[test]
fn decode_snapshot_overlays_the_catalog_label_and_unit() {
    let defs = defs_from(vec![COOLANT.to_vec()]);
    let label = EnvCondLabel {
        uwnr: 20997,
        title_en: Some("EXAMPLE coolant temperature".to_string()),
        title_de: Some("BEISPIEL Kühlmitteltemperatur".to_string()),
        unit: Some("°C".to_string()),
        is_status: false,
    };
    let decoded = defs.decode(&region(vec![0x01, 0x01, 0x52, 0x05, 0x7B]), &[label]);
    assert_eq!(decoded.fields[0].label, "EXAMPLE coolant temperature");
    assert_eq!(decoded.fields[0].unit.as_deref(), Some("°C"));
}

#[test]
fn a_field_without_any_label_is_named_by_its_identifier() {
    let mut row = KM.to_vec();
    row[1] = "-";
    let decoded =
        defs_from(vec![row]).decode(&region(vec![0x01, 0x01, 0x17, 0x00, 0, 0, 1]), &[]);
    assert_eq!(decoded.fields[0].label, "UW 0x1700");
    assert_eq!(decoded.fields[0].unit, None);
}

#[test]
fn a_float_field_keeps_its_bits() {
    let row = vec!["0x4000", "Druck", "bar", "-", "motorola float", "-", "-", "-", "-"];
    let decoded = defs_from(vec![row])
        .decode(&region(vec![0x01, 0x01, 0x40, 0x00, 0x42, 0xC8, 0x00, 0x00]), &[]);
    assert_eq!(decoded.fields[0].number, Some(RawNumber::FloatBits(0x42C8_0000)));
    approx(value(&decoded.fields[0]).unwrap(), 100.0);
}

#[test]
fn a_short_field_is_left_in_the_tail() {
    let defs = defs_from(vec![RPM.to_vec()]);
    let decoded = defs.decode(&region(vec![0x01, 0x01, 0x59, 0x55, 0x10]), &[]);
    assert!(decoded.fields.is_empty());
    assert_eq!(decoded.undecoded_tail, Some(vec![0x59, 0x55, 0x10]));
}

#[test]
fn every_record_of_a_region_is_decoded() {
    let defs = defs_from(vec![COOLANT.to_vec()]);
    let decoded =
        defs.decode(&region(vec![0x01, 0x01, 0x52, 0x05, 0x7B, 0x02, 0x01, 0x52, 0x05, 0x28]), &[]);
    let raws: Vec<u8> = decoded.fields.iter().map(|f| f.raw[0]).collect();
    assert_eq!(raws, vec![0x7B, 0x28]);
    assert_eq!(decoded.undecoded_tail, None);
}

#[test]
fn heads_fields_and_tail_give_the_region_back() {
    let defs = defs_from(vec![COOLANT.to_vec()]);
    let body = vec![0x01, 0x01, 0x52, 0x05, 0x7B, 0x02, 0x02, 0x52, 0x05, 0x28, 0x99, 0x99];
    let decoded = defs.decode(&region(body.clone()), &[]);
    let mut back = Vec::new();
    for (field, head) in decoded.fields.iter().zip([[0x01, 0x01], [0x02, 0x02]]) {
        back.extend_from_slice(&head);
        back.extend_from_slice(&field.uwnr.to_be_bytes());
        back.extend_from_slice(&field.raw);
    }
    back.extend_from_slice(&decoded.undecoded_tail.unwrap());
    assert_eq!(back, body);
}

#[test]
fn records_and_tail_give_the_region_back() {
    let defs = ext_defs_from(vec![vec!["0x02", "HFK", "1"], vec!["0x03", "HLZ", "2"]]);
    let body = vec![0x02, 0x1F, 0x03, 0x01, 0x02, 0x77, 0x00];
    let decoded = defs.decode(&region(body.clone()));
    let mut back = Vec::new();
    for record in &decoded.records {
        back.push(record.record);
        back.extend_from_slice(&record.raw);
    }
    back.extend_from_slice(&decoded.undecoded_tail.unwrap());
    assert_eq!(back, body);
}

#[test]
fn standard_ids_override_measurement_table_on_merge() {
    let merged = SnapshotDefs::from_tables(&[
        env_table("FUMWELTTEXTE", vec![COOLANT.to_vec()]),
        env_table("DTCSNAPSHOTIDENTIFIER", vec![KM.to_vec()]),
    ]);
    assert_eq!(merged.len(), 2);
    let decoded = merged
        .decode(&region(vec![0x01, 0x02, 0x17, 0x00, 0x00, 0x00, 0x01, 0x52, 0x05, 0x7B]), &[]);
    let ids: Vec<u16> = decoded.fields.iter().map(|f| f.uwnr).collect();
    assert_eq!(ids, vec![0x1700, 0x5205]);
}

#[test]
fn the_standard_table_wins_a_collision() {
    let mut clash = COOLANT.to_vec();
    clash[0] = "0x1700";
    let merged = SnapshotDefs::from_tables(&[
        env_table("DTCSNAPSHOTIDENTIFIER", vec![KM.to_vec()]),
        env_table("FUMWELTTEXTE", vec![clash]),
    ]);
    assert_eq!(merged.len(), 1);
    let decoded = merged.decode(&region(vec![0x01, 0x01, 0x17, 0x00, 0x00, 0x00, 0x07]), &[]);
    assert_eq!(decoded.fields[0].label, "KM_STAND");
}

fn ext_defs_from(rows: Vec<Vec<&str>>) -> ExtDataDefs {
    ExtDataDefs::from_tables(&[Table {
        name: "DTCEXTENDEDDATARECORDNUMBER".to_string(),
        columns: ["WERT", "TEXT", "ANZ_BYTE"].iter().map(|s| (*s).to_string()).collect(),
        rows: rows.into_iter().map(|r| r.into_iter().map(str::to_string).collect()).collect(),
    }])
}

#[test]
fn decode_extended_data_reads_frequency_counter() {
    let defs = ext_defs_from(vec![
        vec!["0x01", "CONDITION_BYTE", "1"],
        vec!["0x02", "HFK", "1"],
        vec!["0x03", "HLZ", "1"],
    ]);
    let decoded = defs.decode(&region(vec![0x02, 0x1F, 0x03, 0x02]));
    assert_eq!(decoded.records.len(), 2);
    assert_eq!(decoded.records[0].label, "HFK");
    assert_eq!(decoded.records[0].value, Some(0x1F));
    assert_eq!(decoded.records[1].label, "HLZ");
    assert_eq!(decoded.records[1].value, Some(0x02));
    assert_eq!(decoded.undecoded_tail, None);
}

#[test]
fn decode_extended_data_stops_at_unknown_record() {
    let defs = ext_defs_from(vec![vec!["0x02", "HFK", "1"]]);
    let decoded = defs.decode(&region(vec![0x02, 0x1F, 0x77, 0x00]));
    assert_eq!(decoded.records.len(), 1);
    assert_eq!(decoded.undecoded_tail, Some(vec![0x77, 0x00]));
}

#[test]
fn an_eight_byte_record_is_signed_and_an_empty_one_has_no_value() {
    let defs = ext_defs_from(vec![vec!["0x01", "WIDE", "8"], vec!["0x02", "NONE", "0"]]);
    let decoded = defs.decode(&region(vec![
        0x01, 0xFF, 0xFF, 0xFF, 0xFF, 0xFF, 0xFF, 0xFF, 0xFE, 0x02,
    ]));
    assert_eq!(decoded.records[0].value, Some(-2));
    assert_eq!(decoded.records[1].value, None);
    assert_eq!(decoded.undecoded_tail, None);
}

#[test]
fn an_absurd_record_length_stops_the_walk() {
    let defs = ext_defs_from(vec![vec!["0x01", "HUGE", "18446744073709551615"]]);
    let decoded = defs.decode(&region(vec![0x01, 0xAA]));
    assert!(decoded.records.is_empty());
    assert_eq!(decoded.undecoded_tail, Some(vec![0x01, 0xAA]));
}

#[test]
fn placeholders_are_no_labels_and_no_units() {
    assert_eq!(non_placeholder(" - "), None);
    assert_eq!(non_placeholder("0-n").as_deref(), Some("0-n"));
    assert_eq!(clean_unit("0-n"), None);
    assert_eq!(clean_unit(" km ").as_deref(), Some("km"));
    assert_eq!(parse_u8("0x1F"), Some(0x1F));
    assert_eq!(parse_u8("0x100"), None);
}

#[test]
fn an_ecu_without_tables_has_no_definitions() {
    assert!(FreezeFrameDefs::default().is_empty());
    let none = SnapshotDefs::from_tables(&[]);
    assert!(none.is_empty());
    let decoded = none.decode(&region(vec![0x01, 0x01, 0x52, 0x05, 0x7B]), &[]);
    assert_eq!(decoded.undecoded_tail, Some(vec![0x52, 0x05, 0x7B]));
}
