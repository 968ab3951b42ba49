//! Tests of what the catalog makes of its rows.
use flate2::read::GzDecoder;
use flate2::write::GzEncoder;
use flate2::Compression;
use klartext::semantic::catalog::{
    bordnet_series_for, collect_bodies, ecus, fault_bodies, fault_doc, resolve_quantity,
    service_function_entry, variant_info, EcuRow, QuantityRow, SemanticError,
};
use klartext::semantic::quantity::Quantity;
use std::io::{Read, Write};

fn text(s: &str) -> Option<String> {
    Some(s.to_string())
}

fn ecu(address: u8, group: &str, title_en: Option<String>, title_de: Option<String>) -> EcuRow {
    EcuRow { address, group_name: group.to_string(), title_en, title_de }
}

#[test]
fn ecus_aggregates_by_address_with_canonical_group_and_title() {
    let found = ecus(&[
        ecu(16, "d_0010", text("Gateway"), text("Gateway")),
        ecu(18, "d_0012", text("Digital Diesel Electronics"), text("DDE")),
        ecu(18, "g_motor", text("Engine (group)"), text("Motor")),
        ecu(64, "d_0040", None, None),
        ecu(64, "d_0040", text("Front Electronic Module"), text("FEM")),
    ]);
    assert_eq!(found.iter().map(|e| e.address).collect::<Vec<_>>(), [16, 18, 64]);
    let dde = found.iter().find(|e| e.address == 18).unwrap();
    assert_eq!(dde.group_name, "d_0012");
    assert_eq!(dde.extra_groups, ["g_motor"]);
    assert_eq!(dde.title.as_deref(), Some("Digital Diesel Electronics"));
}

#[test]
fn ecus_promotes_the_canonical_group_and_keeps_the_others() {
    let found = ecus(&[
        ecu(18, "a_first", None, None),
        ecu(18, "d_0012", None, text("DDE")),
        ecu(18, "g_motor", text("Engine"), None),
    ]);
    assert_eq!(found.len(), 1);
    assert_eq!(found[0].group_name, "d_0012");
    assert_eq!(found[0].extra_groups, ["g_motor", "a_first"]);
    assert_eq!(found[0].title.as_deref(), Some("DDE"));
}

#[test]
fn a_group_is_recorded_once_and_never_beside_itself() {
    let found = ecus(&[
        ecu(64, "d_0040", text("Front Electronic Module"), text("FEM")),
        ecu(64, "d_0040", None, None),
        ecu(18, "g_motor", None, None),
        ecu(18, "d_0012", None, None),
        ecu(18, "g_motor", text("Engine"), None),
        ecu(18, "d_0012", text("DDE"), None),
    ]);
    assert_eq!(found[0].group_name, "d_0040");
    assert!(found[0].extra_groups.is_empty());
    assert_eq!(found[0].title.as_deref(), Some("Front Electronic Module"));
    assert_eq!(found[1].group_name, "d_0012");
    assert_eq!(found[1].extra_groups, ["g_motor"]);
}

#[test]
fn the_exact_series_comes_before_its_zero_dropped_form() {
    let known = |names: &[&str]| names.iter().map(|n| n.to_string()).collect::<Vec<_>>();
    let level = "F025-17-03-505";
    let both = known(&["F25_1404", "F25", "F025"]);
    assert_eq!(bordnet_series_for(level, &both).as_deref(), Some("F025"));
    let dropped = known(&["F25", "F25_1404", "F25_1801"]);
    assert_eq!(bordnet_series_for(level, &dropped).as_deref(), Some("F25_1404"));
    assert_eq!(bordnet_series_for(level, &known(&["F30"])), None);
}

#[test]
fn ecus_works_on_a_pre_v2_extract_without_title_columns() {
    let found = ecus(&[
        ecu(16, "d_0010", None, None),
        ecu(18, "d_0012", None, None),
        ecu(64, "d_0040", None, None),
    ]);
    assert_eq!(found.iter().map(|e| e.address).collect::<Vec<_>>(), [16, 18, 64]);
    assert!(found.iter().all(|e| e.title.is_none()));
}

#[test]
fn variants_lists_candidates_for_an_address() {
    let vs = [
        variant_info("dde_a".to_string(), text("Digital Diesel Electronics"), text("DDE")),
        variant_info("dde_b".to_string(), None, text("Motor")),
    ];
    assert_eq!(vs.iter().map(|v| v.name.as_str()).collect::<Vec<_>>(), ["dde_a", "dde_b"]);
    assert_eq!(vs[0].title.as_deref(), Some("Digital Diesel Electronics"));
    assert_eq!(vs[1].title.as_deref(), Some("Motor"));
}

fn row(name: &str, unit: Option<&str>, title_matches: bool) -> QuantityRow {
    QuantityRow { name: name.to_string(), unit: unit.map(str::to_string), title_matches }
}

fn resolved(rows: &[QuantityRow]) -> Option<(String, f64)> {
    let found = resolve_quantity(rows, Quantity::BatteryVoltage)?;
    Some((found.name, found.factor.numerator as f64 / found.factor.denominator as f64))
}

#[test]
fn resolve_quantity_uses_istas_label_and_normalises_the_unit() {
    let v = resolved(&[row("STAT_UBATT_WERT", Some("V"), true)]).unwrap();
    assert_eq!(v.0, "STAT_UBATT_WERT");
    assert_eq!(v.1, 1.0);

    let mv = resolved(&[row("STAT_UBATT_WERT", Some("mV"), true)]).unwrap();
    assert_eq!(mv.1, 0.001);
    assert!(11_800.0 * mv.1 < 12.0, "a flat battery must fail a 12 V floor");

    assert!(resolved(&[row("STAT_UBATT_WERT", None, true)]).is_none());
    assert!(resolved(&[row("STAT_PWG1_SPANNUNG_WERT", Some("mV"), false)]).is_none());
    assert!(resolved(&[row("STAT_UBATT_IBS_WERT", Some("V"), false)]).is_none());
    assert!(resolved(&[]).is_none());
}

#[test]
fn resolve_quantity_refuses_when_two_different_measurements_match_the_same_title() {
    assert!(resolved(&[
        row("STAT_UBATT_WERT", Some("V"), true),
        row("STAT_UBATT2_WERT", Some("V"), true),
    ])
    .is_none());
}

#[test]
fn the_same_measurement_listed_twice_is_not_ambiguous() {
    let twice = [
        row("STAT_UBATT_WERT", Some("mV"), true),
        row("STAT_UBATT_WERT", Some("V"), true),
        row("STAT_OTHER_WERT", Some("bar"), true),
    ];
    assert_eq!(resolved(&twice), Some(("STAT_UBATT_WERT".to_string(), 0.001)));
}

#[test]
fn bordnet_series_resolution_follows_the_dated_variant_ladder() {
    let known: Vec<String> =
        ["F20", "F25", "F25_1404", "X99_2001"].iter().map(|s| (*s).to_string()).collect();
    assert_eq!(bordnet_series_for("F025-17-03-505", &known).as_deref(), Some("F25_1404"));
    assert_eq!(bordnet_series_for("F025-14-03-505", &known).as_deref(), Some("F25"));
    assert_eq!(bordnet_series_for("f020-13-11-500", &known).as_deref(), Some("F20"));
    assert_eq!(bordnet_series_for("X099-19-01-001", &known), None);
    assert_eq!(bordnet_series_for("G031-20-11-500", &known), None);
    assert_eq!(bordnet_series_for("garbage", &known), None);
}

#[test]
fn the_latest_applicable_dated_variant_wins() {
    let known: Vec<String> =
        ["F25_1203", "f25_1404", "F25", "F25_1707"].iter().map(|s| (*s).to_string()).collect();
    assert_eq!(bordnet_series_for("F025-17-03-505", &known).as_deref(), Some("f25_1404"));
    assert_eq!(bordnet_series_for("F025-17-xx-505", &known), None);
}

#[test]
fn fault_help_returns_linked_docs_with_title_precedence() {
    let d1 = fault_doc(
        1001,
        text("FKB"),
        text("DOC-1"),
        Some(0),
        text("Glow plug fault"),
        text("Gluehkerzenfehler"),
    );
    assert_eq!(d1.title.as_deref(), Some("Glow plug fault"));
    assert_eq!(d1.infotype.as_deref(), Some("FKB"));
    assert!(!d1.safety_relevant);
    let d2 =
        fault_doc(1002, text("ABL"), text("DOC-2"), Some(1), None, text("Gluehkerze pruefen"));
    assert_eq!(d2.title.as_deref(), Some("Gluehkerze pruefen"));
    assert!(d2.safety_relevant);
    assert_eq!(d2.docnumber.as_deref(), Some("DOC-2"));
    assert!(!fault_doc(1003, None, None, None, None, None).safety_relevant);
}

#[test]
fn a_runnable_function_carries_its_title_reset_and_hold() {
    let f = service_function_entry(
        9001,
        None,
        text("BEISPIEL Ventil"),
        1,
        Some(1),
        Some(5000),
        text("Ansteuerung 5s"),
    );
    assert_eq!(f.function_id, 9001);
    assert!(f.has_reset);
    assert_eq!(f.title.as_deref(), Some("BEISPIEL Ventil"));
    assert_eq!(f.activation, Some(1));
    assert_eq!(f.activation_duration_ms, Some(5000));
    assert_eq!(f.preparing_text.as_deref(), Some("Ansteuerung 5s"));
    assert!(!service_function_entry(9002, None, None, 0, None, None, None).has_reset);
}

fn gzip(bytes: &[u8]) -> Vec<u8> {
    let mut enc = GzEncoder::new(Vec::new(), Compression::default());
    enc.write_all(bytes).unwrap();
    enc.finish().unwrap()
}

#[test]
fn fault_body_reads_rendered_markdown_from_sibling_docs_db() {
    let gz = gzip(b"## Ma\xC3\x9fnahme im Service\n\nSteuergeraet pruefen.");
    let bodies = fault_bodies(&[Some(gz), None]).unwrap();
    assert_eq!(bodies.len(), 1);
    assert!(bodies[0].contains("Maßnahme im Service"));
    assert!(bodies[0].contains("Steuergeraet pruefen"));
}

#[test]
fn fault_body_without_docs_db_is_empty() {
    assert!(fault_bodies(&[]).unwrap().is_empty());
}

#[test]
fn a_corrupt_body_is_an_error() {
    let no_text = vec![0xC3, 0x28];
    let no_gzip = vec![0x01; 32];
    for blob in [vec![0x01, 0x02, 0x03], no_gzip, gzip(&no_text)] {
        let mut text = String::new();
        let error = GzDecoder::new(blob.as_slice()).read_to_string(&mut text).unwrap_err();
        let message = error.to_string();
        assert_eq!(fault_bodies(&[Some(blob)]), Err(SemanticError::Query { message }));
    }
}

#[test]
fn a_corrupt_body_keeps_the_words_of_the_decoder() {
    assert_eq!(
        fault_bodies(&[None, Some(gzip(b"a")), Some(vec![0x01; 32]), Some(gzip(&[0xC3, 0x28]))]),
        Err(SemanticError::Query { message: "invalid gzip header".to_string() })
    );
}

#[test]
fn decoded_bodies_are_kept_in_order_until_one_is_corrupt() {
    assert_eq!(
        collect_bodies(&[Some(Ok("a".to_string())), None, Some(Ok("b".to_string()))]).unwrap(),
        vec!["a", "b"]
    );
    assert_eq!(
        collect_bodies(&[
            Some(Ok("a".to_string())),
            Some(Err("first".to_string())),
            Some(Err("second".to_string())),
        ]),
        Err(SemanticError::Query { message: "first".to_string() })
    );
}
