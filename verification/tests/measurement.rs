//! Tests of measurement tables: parsing, lookup, and the read sequence.
use klartext::semantic::measurement::{
    build_read_request, fold_for_match, parse_factor, parse_id, DataType, Factor, Measurement,
    Measurements, RawNumber,
};
use klartext::sgbd::prg::Table;

fn approx(actual: f64, expected: f64) {
    assert!((actual - expected).abs() < 1e-6, "expected {expected}, got {actual}");
}

fn number(n: RawNumber) -> f64 {
    match n {
        RawNumber::Unsigned(v) => v as f64,
        RawNumber::FloatBits(bits) => f64::from(f32::from_bits(bits)),
    }
}

fn factor(f: &Factor, blank: f64) -> f64 {
    match f {
        Factor::Blank => blank,
        Factor::Number(text) => text.trim().parse::<f64>().unwrap(),
    }
}

/// `raw * mul / div + add`, where the bytes suffice and the divisor is not zero.
fn scale(raw: &[u8], datatype: DataType, mul: f64, div: f64, add: f64) -> Option<f64> {
    let n = datatype.read_be(raw)?;
    if div == 0.0 {
        return None;
    }
    Some(number(n) * mul / div + add)
}

fn scaled(m: &Measurement, raw: &[u8]) -> Option<f64> {
    scale(raw, m.datatype, factor(&m.mul, 1.0), factor(&m.div, 1.0), factor(&m.add, 0.0))
}

#[test]
fn motor_temperature_scales_decikelvin_to_celsius() {
    let v = scale(&[0x0E, 0x2F], DataType::U16, 0.1, 1.0, -273.14).expect("scales");
    approx(v, 89.96);
}

#[test]
fn one_byte_offset_signal_scales() {
    approx(scale(&[0x7B], DataType::U8, 1.0, 1.0, -40.0).unwrap(), 83.0);
}

#[test]
fn divisor_is_applied() {
    approx(scale(&[0x00, 0x64], DataType::U16, 1.0, 100.0, 0.0).unwrap(), 1.0);
}

#[test]
fn unsigned_long_scales() {
    approx(
        scale(&[0x00, 0x01, 0x86, 0xA0], DataType::U32, 1.0, 1.0, 0.0).unwrap(),
        100_000.0,
    );
}

#[test]
fn motorola_float_reads_big_endian_ieee754() {
    approx(
        scale(&[0x42, 0xC8, 0x00, 0x00], DataType::F32Be, 1.0, 1.0, 0.0).unwrap(),
        100.0,
    );
}

#[test]
fn too_short_raw_degrades_to_none() {
    assert_eq!(scale(&[0x0E], DataType::U16, 0.1, 1.0, -273.14), None);
    assert_eq!(scale(&[], DataType::U8, 1.0, 1.0, 0.0), None);
}

#[test]
fn datentyp_maps_known_types_and_rejects_others() {
    assert_eq!(DataType::from_datentyp("unsigned char"), Some(DataType::U8));
    assert_eq!(DataType::from_datentyp("unsigned int"), Some(DataType::U16));
    assert_eq!(DataType::from_datentyp("unsigned long"), Some(DataType::U32));
    assert_eq!(DataType::from_datentyp("motorola float"), Some(DataType::F32Be));
    assert_eq!(DataType::from_datentyp("signed int"), None);
    assert_eq!(DataType::from_datentyp(""), None);
}

#[test]
fn raw_numbers_are_big_endian_prefixes() {
    assert_eq!(DataType::U16.read_be(&[0x0E, 0x2F, 0xFF]), Some(RawNumber::Unsigned(0x0E2F)));
    assert_eq!(
        DataType::F32Be.read_be(&[0x42, 0xC8, 0x00, 0x00]),
        Some(RawNumber::FloatBits(0x42C8_0000))
    );
    assert_eq!(DataType::U8.width(), 1);
    assert_eq!(DataType::U16.width(), 2);
    assert_eq!(DataType::U32.width(), 4);
    assert_eq!(DataType::F32Be.width(), 4);
}

#[test]
fn a_factor_is_blank_a_number_or_nothing() {
    assert_eq!(parse_factor("-"), Some(Factor::Blank));
    assert_eq!(parse_factor(""), Some(Factor::Blank));
    assert_eq!(parse_factor(" -273.14 "), Some(Factor::Number("-273.14".to_string())));
    assert_eq!(parse_factor("1e3"), Some(Factor::Number("1e3".to_string())));
    assert_eq!(parse_factor("zwei"), None);
}

#[test]
fn an_identifier_is_hexadecimal() {
    assert_eq!(parse_id("0x4BC3"), Some(0x4BC3));
    assert_eq!(parse_id("0X4bc3"), Some(0x4BC3));
    assert_eq!(parse_id(" 4BC3 "), Some(0x4BC3));
    assert_eq!(parse_id("0x12345"), None);
    assert_eq!(parse_id("-"), None);
}

#[test]
fn folding_lowers_and_spells_out_the_sharp_s() {
    assert_eq!(fold_for_match("RUßMASSE"), "russmasse");
    assert_eq!(fold_for_match("ÖLTEMPERATUR"), "öltemperatur");
}

fn sg_funktionen(rows: Vec<Vec<&str>>) -> Table {
    let columns = [
        "ARG", "ID", "RESULTNAME", "INFO", "EINHEIT", "LABEL", "L/H", "DATENTYP", "NAME", "MUL",
        "DIV", "ADD", "SG_ADR", "SERVICE", "ARG_TABELLE", "RES_TABELLE",
    ];
    Table {
        name: "SG_FUNKTIONEN".to_string(),
        columns: columns.iter().map(|s| (*s).to_string()).collect(),
        rows: rows.into_iter().map(|r| r.into_iter().map(str::to_string).collect()).collect(),
    }
}

fn motor_temp() -> Vec<&'static str> {
    vec![
        "ITMOT",
        "0x4BC3",
        "STAT_MOTORTEMPERATUR_WERT",
        "Motortemperatur",
        "degC",
        "EngDa_tEng",
        "-",
        "unsigned int",
        "-",
        "0.100000",
        "-",
        "-273.140000",
        "12",
        "22;2C",
        "-",
        "-",
    ]
}

#[test]
fn measurements_scale_proprietary_value_by_id() {
    let m = Measurements::from_table(&sg_funktionen(vec![motor_temp()]));
    let s = m.get(0x4BC3).expect("scales");
    assert_eq!(s.name(), "Motortemperatur");
    assert_eq!(s.unit, "degC");
    approx(scaled(s, &[0x0E, 0x2F]).unwrap(), 89.96);
}

#[test]
fn unknown_id_degrades_to_none() {
    let m = Measurements::from_table(&sg_funktionen(vec![motor_temp()]));
    assert!(m.get(0x9999).is_none());
}

#[test]
fn rows_with_unhandled_datentyp_are_skipped() {
    let mut row = motor_temp();
    row[7] = "signed int";
    let m = Measurements::from_table(&sg_funktionen(vec![row]));
    assert!(m.is_empty());
    assert!(m.get(0x4BC3).is_none());
}

#[test]
fn name_falls_back_to_result_name_when_description_blank() {
    let mut row = motor_temp();
    row[3] = "-";
    let m = Measurements::from_table(&sg_funktionen(vec![row]));
    assert_eq!(m.get(0x4BC3).unwrap().name(), "STAT_MOTORTEMPERATUR_WERT");
}

fn named_row(
    arg: &'static str,
    id: &'static str,
    result: &'static str,
    info: &'static str,
) -> Vec<&'static str> {
    vec![
        arg,
        id,
        result,
        info,
        "degC",
        "-",
        "-",
        "unsigned int",
        "-",
        "0.100000",
        "-",
        "-273.140000",
        "12",
        "22;2C",
        "-",
        "-",
    ]
}

#[test]
fn all_returns_measurements_sorted_by_id() {
    let m = Measurements::from_table(&sg_funktionen(vec![
        motor_temp(),
        named_row("ITKUM", "0x461B", "STAT_KUEHLMITTELTEMPERATUR_WERT", "Kühlmitteltemperatur"),
    ]));
    let ids: Vec<u16> = m.all().iter().map(|x| x.id).collect();
    assert_eq!(ids, vec![0x461B, 0x4BC3]);
}

#[test]
fn a_clone_holds_the_same_measurements() {
    let m = Measurements::from_table(&sg_funktionen(vec![
        motor_temp(),
        named_row("ITKUM", "0x461B", "STAT_KUEHLMITTELTEMPERATUR_WERT", "Kühlmitteltemperatur"),
    ]));
    let copy = m.clone();
    assert_eq!(copy.all(), m.all());
    assert_eq!(copy.len(), 2);
}

#[test]
fn folding_a_folded_name_changes_nothing() {
    for name in ["RUSSMASSE", " rußmasse ", "Russmasse"] {
        let folded = fold_for_match(name);
        assert_eq!(folded, "russmasse");
        assert_eq!(fold_for_match(&folded), folded);
    }
}

#[test]
fn find_by_name_matches_the_short_arg_case_insensitively() {
    let m = Measurements::from_table(&sg_funktionen(vec![motor_temp()]));
    let found = m.find_by_name("itmot");
    assert_eq!(found.len(), 1);
    assert_eq!(found[0].id, 0x4BC3);
}

#[test]
fn find_by_name_matches_the_result_name() {
    let m = Measurements::from_table(&sg_funktionen(vec![motor_temp()]));
    let found = m.find_by_name("stat_motortemperatur_wert");
    assert_eq!(found.len(), 1);
    assert_eq!(found[0].id, 0x4BC3);
}

#[test]
fn find_by_name_matches_the_description() {
    let m = Measurements::from_table(&sg_funktionen(vec![motor_temp()]));
    let found = m.find_by_name("Motortemperatur");
    assert_eq!(found.len(), 1);
    assert_eq!(found[0].id, 0x4BC3);
}

#[test]
fn find_by_name_folds_german_case() {
    let m = Measurements::from_table(&sg_funktionen(vec![
        named_row("TOEL", "0x4517", "STAT_OELTEMPERATUR_WERT", "Öltemperatur"),
        named_row("IMRUP", "0x44BE", "STAT_RUSSMASSE_WERT", "Rußmasse"),
    ]));
    assert_eq!(m.find_by_name("öltemperatur")[0].id, 0x4517);
    assert_eq!(m.find_by_name("ÖLTEMPERATUR")[0].id, 0x4517);
    assert_eq!(m.find_by_name("RUSSMASSE")[0].id, 0x44BE);
    assert_eq!(m.find_by_name("Russmasse")[0].id, 0x44BE);
    assert_eq!(m.find_by_name("rußmasse")[0].id, 0x44BE);
}

#[test]
fn find_by_name_reports_cross_field_collisions_as_ambiguous() {
    let m = Measurements::from_table(&sg_funktionen(vec![
        named_row("TOEL", "0x4517", "STAT_OELTEMPERATUR_WERT", "Öltemperatur"),
        named_row("XYZ", "0x1234", "STAT_XYZ_WERT", "TOEL"),
    ]));
    let ids: Vec<u16> = m.find_by_name("toel").iter().map(|x| x.id).collect();
    assert_eq!(ids, vec![0x1234, 0x4517]);
}

#[test]
fn find_by_name_returns_every_match_sorted_by_id() {
    let m = Measurements::from_table(&sg_funktionen(vec![
        named_row("B_a", "0x1000", "STAT_A_WERT", "Statuswort"),
        named_row("B_b", "0x0999", "STAT_B_WERT", "Statuswort"),
    ]));
    let ids: Vec<u16> = m.find_by_name("statuswort").iter().map(|x| x.id).collect();
    assert_eq!(ids, vec![0x0999, 0x1000]);
}

#[test]
fn find_by_name_matches_one_row_only_once_across_its_own_fields() {
    let m = Measurements::from_table(&sg_funktionen(vec![named_row(
        "Nkw",
        "0x427F",
        "STAT_Nkw_WERT",
        "Nkw",
    )]));
    let found = m.find_by_name("nkw");
    assert_eq!(found.len(), 1);
    assert_eq!(found[0].id, 0x427F);
}

#[test]
fn find_by_name_matches_nothing_for_unknown_empty_or_placeholder_names() {
    let mut placeholder_info = motor_temp();
    placeholder_info[3] = "-";
    let m = Measurements::from_table(&sg_funktionen(vec![
        placeholder_info,
        named_row("", "0x2000", "STAT_NO_ARG_WERT", "Ohne Argument"),
    ]));
    assert!(m.find_by_name("does-not-exist").is_empty());
    assert!(m.find_by_name("").is_empty());
    assert!(m.find_by_name("   ").is_empty());
    assert!(m.find_by_name("-").is_empty());
}

#[test]
fn the_first_row_of_a_repeated_id_is_kept() {
    let m = Measurements::from_table(&sg_funktionen(vec![
        named_row("A", "0x1000", "STAT_A_WERT", "Erste"),
        named_row("B", "0x1000", "STAT_B_WERT", "Zweite"),
    ]));
    assert_eq!(m.len(), 1);
    assert_eq!(m.get(0x1000).unwrap().arg, "A");
}

#[test]
fn no_measurements_without_the_table() {
    assert!(Measurements::default().is_empty());
    assert_eq!(Measurements::default().find_by_name("itmot").len(), 0);
}

#[test]
fn is_dynamic_detects_the_2c_service() {
    let m = Measurements::from_table(&sg_funktionen(vec![motor_temp()]));
    assert!(m.get(0x4BC3).unwrap().is_dynamic());
}

#[test]
fn is_dynamic_is_false_for_a_static_did_service() {
    let mut row = motor_temp();
    row[13] = "22";
    let m = Measurements::from_table(&sg_funktionen(vec![row]));
    assert!(!m.get(0x4BC3).unwrap().is_dynamic());
}

#[test]
fn build_read_request_emits_the_derived_dde_sequence() {
    let m = Measurements::from_table(&sg_funktionen(vec![motor_temp()]));
    let measurement = m.get(0x4BC3).expect("measurement parsed");
    assert_eq!(
        build_read_request(measurement),
        vec![
            vec![0x2C, 0x03, 0xF3, 0x03],
            vec![0x2C, 0x01, 0xF3, 0x03, 0x4B, 0xC3, 0x01, 0x02],
            vec![0x22, 0xF3, 0x03],
        ]
    );
}

#[test]
fn build_read_request_sizes_the_define_by_data_type() {
    let mut row = motor_temp();
    row[7] = "unsigned long";
    let m = Measurements::from_table(&sg_funktionen(vec![row]));
    let define = build_read_request(m.get(0x4BC3).unwrap())[1].clone();
    assert_eq!(define, vec![0x2C, 0x01, 0xF3, 0x03, 0x4B, 0xC3, 0x01, 0x04]);
}
