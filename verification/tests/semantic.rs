//! Tests of identifiers, fault codes, vehicle orders, OBD values and quantities.
use klartext::ratio::Ratio;
use klartext::semantic::catalog::EcuSlot;
use klartext::semantic::did::{decode, standard_name};
use klartext::semantic::dtc::{code_number, status_flags};
use klartext::semantic::identity::{
    decode_fa_char, decode_vehicle_order, name_ecu_list, unpack_four, NamedEcu, VehicleOrder,
    FA_VERSION,
};
use klartext::semantic::pid::{pid_for_did, scale, ScaledPid};
use klartext::semantic::quantity::Quantity;

/// A ratio as a float.
fn float(r: Ratio) -> f64 {
    r.numerator as f64 / r.denominator as f64
}

#[test]
fn standard_name_knows_vin() {
    assert_eq!(standard_name(0xF190), Some("VIN"));
}

#[test]
fn only_identification_dids_have_a_standard_name() {
    for did in 0..=u16::MAX {
        if standard_name(did).is_some() {
            assert!(did == 0x172A || (0xF100..=0xF1FF).contains(&did), "{did:#06X}");
        }
    }
    assert_eq!(standard_name(0x172A), Some("IPConfiguration"));
    assert_eq!(standard_name(0xFF00), None);
}

#[test]
fn standard_name_unknown_did_is_none() {
    assert_eq!(standard_name(0x1234), None);
}

#[test]
fn decode_vin_names_and_renders_ascii() {
    let d = decode(0xF190, b"WBA1234567890ABCD");
    assert_eq!(d.name, Some("VIN"));
    assert_eq!(d.text.as_deref(), Some("WBA1234567890ABCD"));
    assert_eq!(d.raw, b"WBA1234567890ABCD");
}

#[test]
fn decode_binary_value_has_no_text_and_no_name() {
    let d = decode(0x4242, &[0x00, 0x9C, 0xFF]);
    assert_eq!(d.name, None);
    assert_eq!(d.text, None);
    assert_eq!(d.raw, vec![0x00, 0x9C, 0xFF]);
}

#[test]
fn decode_reads_utf8_beyond_ascii() {
    assert_eq!(decode(0x4242, "Öl".as_bytes()).text.as_deref(), Some("Öl"));
    assert_eq!(decode(0x4242, b"A\x07").text, None);
    assert_eq!(decode(0x4242, b"").text, None);
}

#[test]
fn code_number_packs_three_bytes_big_endian() {
    assert_eq!(code_number([0xD9, 0x04, 0x0A]), 14_222_346);
}

#[test]
fn code_numbers_of_different_codes_differ() {
    assert_ne!(code_number([0x01, 0x00, 0x00]), code_number([0x00, 0x01, 0x00]));
    assert_eq!(code_number([0xFF, 0xFF, 0xFF]), 0xFF_FFFF);
}

#[test]
fn status_flags_lists_set_iso_bits_low_first() {
    assert_eq!(
        status_flags(0x2C),
        vec!["pendingDTC", "confirmedDTC", "testFailedSinceLastClear"]
    );
}

#[test]
fn status_flags_decodes_test_failed_and_warning() {
    assert_eq!(status_flags(0x81), vec!["testFailed", "warningIndicatorRequested"]);
}

#[test]
fn status_flags_empty_when_no_bits_set() {
    assert!(status_flags(0x00).is_empty());
}

/// Packs text as 6-bit characters (value = ascii - 0x20) into a bit vector.
fn pack_chars(bits: &mut Vec<u8>, text: &str) {
    for ch in text.chars() {
        let value = (ch as u8) - 0x20;
        for shift in (0..6).rev() {
            bits.push((value >> shift) & 1);
        }
    }
}

fn pack_tag(bits: &mut Vec<u8>, tag: u8) {
    for shift in (0..4).rev() {
        bits.push((tag >> shift) & 1);
    }
}

fn bytes_of(bits: &[u8]) -> Vec<u8> {
    bits.chunks(8).map(|c| c.iter().fold(0u8, |acc, &b| (acc << 1) | b)).collect()
}

/// A whole region as a gateway builds it: date, series, type, paint, upholstery, and three lists.
fn build_fa(header: [&str; 5], sa: &[&str], ew: &[&str], ho: &[&str]) -> Vec<u8> {
    let mut bits: Vec<u8> = Vec::new();
    pack_tag(&mut bits, 0b1000);
    for code in sa {
        pack_chars(&mut bits, code);
    }
    bits.extend_from_slice(&[0, 0]);
    pack_tag(&mut bits, 0b0100);
    for word in ew {
        pack_chars(&mut bits, word);
    }
    bits.extend_from_slice(&[0, 0]);
    pack_tag(&mut bits, 0b1100);
    for word in ho {
        pack_chars(&mut bits, word);
    }
    bits.extend_from_slice(&[0, 0]);
    while bits.len() % 8 != 0 {
        bits.push(0);
    }
    let stream = bytes_of(&bits);

    let mut head: Vec<u8> = vec![3];
    for field in header {
        let mut fb: Vec<u8> = Vec::new();
        pack_chars(&mut fb, field);
        head.extend(bytes_of(&fb));
    }
    let body_len = head.len() + stream.len();
    let mut region = (u16::try_from(body_len).unwrap()).to_be_bytes().to_vec();
    region.extend(head);
    region.extend(stream);
    region.extend_from_slice(&[0x00, 0x04, 0xDE, 0xAD, 0xBE, 0xEF]);
    region
}

#[test]
fn vehicle_order_decodes_header_fields_and_all_three_option_lists() {
    let region = build_fa(
        ["0317", "F025", "WZ51", "0300", "LUSW"],
        &["1CA", "2TE", "9AA"],
        &["A090"],
        &["HO01"],
    );
    let fa = decode_vehicle_order(&region);

    assert_eq!(fa.version, Some(3), "version is at payload[2], not payload[5]");
    assert_eq!(fa.build_date.as_deref(), Some("0317"));
    assert_eq!(fa.baureihe.as_deref(), Some("F025"));
    assert_eq!(fa.typ_schluessel.as_deref(), Some("WZ51"));
    assert_eq!(fa.lackcode.as_deref(), Some("0300"));
    assert_eq!(fa.polstercode.as_deref(), Some("LUSW"));
    assert_eq!(fa.options, vec!["1CA", "2TE", "9AA"]);
    assert_eq!(fa.e_worte, vec!["A090"]);
    assert_eq!(fa.ho_worte, vec!["HO01"]);
    assert_eq!(fa.raw, region, "the region is always kept verbatim");

    assert_eq!(
        fa.standard_fa().as_deref(),
        Some("F025#0317*WZ51%0300&LUSW$1CA$2TE$9AA-A090+HO01")
    );
}

#[test]
fn the_declared_length_keeps_the_signature_out_of_the_option_stream() {
    let region = build_fa(["0317", "F025", "WZ51", "0300", "LUSW"], &["1CA"], &[], &[]);
    let fa = decode_vehicle_order(&region);
    assert_eq!(fa.options, vec!["1CA"], "exactly the one SA, not signature noise");
    assert!(fa.e_worte.is_empty() && fa.ho_worte.is_empty());
}

#[test]
fn a_short_vehicle_order_region_degrades_without_panicking() {
    for len in 0..18usize {
        let fa = decode_vehicle_order(&vec![0xAA; len]);
        assert_eq!(fa.raw.len(), len);
        assert!(fa.options.is_empty());
        if len <= FA_VERSION {
            assert_eq!(fa.version, None);
        }
    }
}

#[test]
fn fa_characters_below_the_alphabet_have_no_mapping() {
    assert_eq!(decode_fa_char(0x10), Some('0'));
    assert_eq!(decode_fa_char(0x21), Some('A'));
    assert_eq!(decode_fa_char(0x3F), Some('_'));
    for value in 0..0x10 {
        assert_eq!(decode_fa_char(value), None, "0x{value:02X} must not map");
    }
}

#[test]
fn a_header_field_is_four_packed_characters() {
    let mut bits: Vec<u8> = Vec::new();
    pack_chars(&mut bits, "F025");
    assert_eq!(unpack_four(&bytes_of(&bits), 0).as_deref(), Some("F025"));
    assert_eq!(unpack_four(&bytes_of(&bits), 1), None);
}

#[test]
fn an_order_without_its_series_has_no_standard_form() {
    let fa: VehicleOrder = decode_vehicle_order(&[0x00, 0x01, 0x03]);
    assert_eq!(fa.version, Some(3));
    assert_eq!(fa.baureihe, None);
    assert_eq!(fa.standard_fa(), None);
}

#[test]
fn without_catalog_addresses_keep_raw_names() {
    let ecus = name_ecu_list(None, &[0x10, 0x12]);
    assert_eq!(
        ecus,
        vec![
            NamedEcu { address: 0x10, name: None, title: None },
            NamedEcu { address: 0x12, name: None, title: None },
        ]
    );
}

#[test]
fn a_catalog_names_the_addresses_it_knows() {
    let slots = [EcuSlot {
        address: 0x12,
        group_name: "d_0012".to_string(),
        extra_groups: vec!["g_motor".to_string()],
        title: Some("Engine".to_string()),
    }];
    let ecus = name_ecu_list(Some(&slots), &[0x10, 0x12]);
    assert_eq!(ecus[0], NamedEcu { address: 0x10, name: None, title: None });
    assert_eq!(
        ecus[1],
        NamedEcu {
            address: 0x12,
            name: Some("d_0012".to_string()),
            title: Some("Engine".to_string())
        }
    );
}

#[test]
fn the_version_byte_is_at_payload_offset_two_not_five() {
    let region = vec![0x00, 0x00, 0x02, 0x11, 0x22, 0x57, 0x33];
    let fa = decode_vehicle_order(&region);
    assert_eq!(fa.version, Some(2), "payload[2], not the 0x57 at payload[5]");
    assert_eq!(fa.raw, region);
}

#[test]
fn short_region_has_no_version_but_keeps_raw() {
    let fa = decode_vehicle_order(&[0x01, 0x02]);
    assert_eq!(fa.version, None);
    assert_eq!(fa.raw, vec![0x01, 0x02]);
}

fn approx(actual: Ratio, expected: f64) {
    let actual = float(actual);
    assert!((actual - expected).abs() < 1e-6, "expected {expected}, got {actual}");
}

fn scaled(pid: u8, data: &[u8]) -> ScaledPid {
    scale(pid, data).unwrap_or_else(|| panic!("PID 0x{pid:02X} did not scale"))
}

#[test]
fn calculated_engine_load_is_percent_of_255() {
    let s = scaled(0x04, &[0x33]);
    assert_eq!(s.name, "Calculated engine load");
    assert_eq!(s.unit, "%");
    approx(s.value, 20.0);
    approx(scaled(0x04, &[0x00]).value, 0.0);
    approx(scaled(0x04, &[0xFF]).value, 100.0);
}

#[test]
fn coolant_temp_is_celsius_minus_40() {
    let s = scaled(0x05, &[0x7B]);
    assert_eq!(s.name, "Engine coolant temperature");
    assert_eq!(s.unit, "°C");
    approx(s.value, 83.0);
    approx(scaled(0x05, &[0x00]).value, -40.0);
    approx(scaled(0x05, &[0xFF]).value, 215.0);
}

#[test]
fn engine_rpm_is_quarter_counts() {
    let s = scaled(0x0C, &[0x0D, 0x48]);
    assert_eq!(s.name, "Engine RPM");
    assert_eq!(s.unit, "rpm");
    approx(s.value, 850.0);
    approx(scaled(0x0C, &[0x00, 0x00]).value, 0.0);
    approx(scaled(0x0C, &[0xFF, 0xFF]).value, 16383.75);
}

#[test]
fn vehicle_speed_is_raw_kmh() {
    let s = scaled(0x0D, &[0x64]);
    assert_eq!(s.name, "Vehicle speed");
    assert_eq!(s.unit, "km/h");
    approx(s.value, 100.0);
    approx(scaled(0x0D, &[0x00]).value, 0.0);
    approx(scaled(0x0D, &[0xFF]).value, 255.0);
}

#[test]
fn timing_advance_is_half_degrees_minus_64() {
    let s = scaled(0x0E, &[0x80]);
    assert_eq!(s.name, "Timing advance");
    assert_eq!(s.unit, "°");
    approx(s.value, 0.0);
    approx(scaled(0x0E, &[0x00]).value, -64.0);
    approx(scaled(0x0E, &[0xFF]).value, 63.5);
}

#[test]
fn intake_air_temp_is_celsius_minus_40() {
    let s = scaled(0x0F, &[0x28]);
    assert_eq!(s.name, "Intake air temperature");
    assert_eq!(s.unit, "°C");
    approx(s.value, 0.0);
    approx(scaled(0x0F, &[0x00]).value, -40.0);
    approx(scaled(0x0F, &[0xFF]).value, 215.0);
}

#[test]
fn maf_rate_is_grams_per_second() {
    let s = scaled(0x10, &[0x01, 0xF4]);
    assert_eq!(s.name, "MAF air flow rate");
    assert_eq!(s.unit, "g/s");
    approx(s.value, 5.0);
    approx(scaled(0x10, &[0x00, 0x00]).value, 0.0);
    approx(scaled(0x10, &[0xFF, 0xFF]).value, 655.35);
}

#[test]
fn throttle_position_is_percent_of_255() {
    let s = scaled(0x11, &[0xFF]);
    assert_eq!(s.name, "Throttle position");
    assert_eq!(s.unit, "%");
    approx(s.value, 100.0);
    approx(scaled(0x11, &[0x00]).value, 0.0);
}

#[test]
fn fuel_rail_gauge_pressure_is_ten_kpa_counts() {
    let s = scaled(0x23, &[0x01, 0x00]);
    assert_eq!(s.name, "Fuel rail gauge pressure");
    assert_eq!(s.unit, "kPa");
    approx(s.value, 2560.0);
    approx(scaled(0x23, &[0x00, 0x00]).value, 0.0);
    approx(scaled(0x23, &[0xFF, 0xFF]).value, 655350.0);
}

#[test]
fn ambient_air_temp_is_celsius_minus_40() {
    let s = scaled(0x46, &[0x37]);
    assert_eq!(s.name, "Ambient air temperature");
    assert_eq!(s.unit, "°C");
    approx(s.value, 15.0);
    approx(scaled(0x46, &[0x00]).value, -40.0);
    approx(scaled(0x46, &[0xFF]).value, 215.0);
}

#[test]
fn unknown_pid_does_not_scale() {
    assert_eq!(scale(0x99, &[0x12, 0x34]), None);
}

#[test]
fn two_byte_pid_with_one_byte_does_not_scale() {
    assert_eq!(scale(0x0C, &[0x0D]), None);
}

#[test]
fn empty_data_does_not_scale() {
    assert_eq!(scale(0x05, &[]), None);
}

#[test]
fn pid_for_did_maps_the_obd_range() {
    assert_eq!(pid_for_did(0xF405), Some(0x05));
    assert_eq!(pid_for_did(0xF40C), Some(0x0C));
    assert_eq!(pid_for_did(0xF400), Some(0x00));
    assert_eq!(pid_for_did(0xF4FF), Some(0xFF));
}

#[test]
fn pid_for_did_outside_the_obd_range_is_none() {
    assert_eq!(pid_for_did(0xF190), None);
    assert_eq!(pid_for_did(0xF3FF), None);
    assert_eq!(pid_for_did(0xF500), None);
    assert_eq!(pid_for_did(0x000C), None);
}

#[test]
fn candidates_are_curated_never_patterns() {
    let battery = Quantity::BatteryVoltage.candidates();
    assert!(battery.contains(&"STAT_UBATT_WERT"));
    assert!(!battery.iter().any(|n| n.contains("PWG")));
    assert!(!battery.iter().any(|n| n.contains("SOLLWERT")));
    for q in Quantity::all() {
        assert!(!q.candidates().is_empty(), "{q:?} has no candidates");
    }
}

fn factor(quantity: Quantity, unit: Option<&str>) -> Option<f64> {
    quantity.unit_factor(unit).map(float)
}

#[test]
fn unit_factor_normalises_millivolts_to_volts() {
    assert_eq!(factor(Quantity::BatteryVoltage, Some("V")), Some(1.0));
    assert_eq!(factor(Quantity::BatteryVoltage, Some("mV")), Some(0.001));
}

#[test]
fn an_unknown_or_missing_unit_is_unresolvable_not_assumed() {
    assert_eq!(factor(Quantity::BatteryVoltage, None), None);
    assert_eq!(factor(Quantity::BatteryVoltage, Some("")), None);
    assert_eq!(factor(Quantity::BatteryVoltage, Some("bar")), None);
    assert_eq!(factor(Quantity::EngineSpeed, Some("V")), None);
    assert_eq!(factor(Quantity::CoolantTemp, Some("km/h")), None);
}

#[test]
fn each_quantity_accepts_its_own_units() {
    assert_eq!(factor(Quantity::EngineSpeed, Some("1/min")), Some(1.0));
    assert_eq!(factor(Quantity::CoolantTemp, Some("°C")), Some(1.0));
    assert_eq!(factor(Quantity::RoadSpeed, Some("km/h")), Some(1.0));
    assert_eq!(Quantity::BatteryVoltage.canonical_unit(), "V");
    assert_eq!(Quantity::EngineSpeed.canonical_unit(), "1/min");
}

#[test]
fn each_canonical_unit_is_accepted_by_its_owner_alone() {
    let canonical = [
        (Quantity::EngineSpeed, "1/min"),
        (Quantity::BatteryVoltage, "V"),
        (Quantity::CoolantTemp, "°C"),
        (Quantity::RoadSpeed, "km/h"),
    ];
    for (owner, unit) in canonical {
        assert_eq!(owner.canonical_unit(), unit, "{owner:?} canonical unit mismatch");
        for q in Quantity::all() {
            let found = factor(q, Some(unit));
            if q == owner {
                assert_eq!(found, Some(1.0), "{q:?} must accept its own unit {unit:?}");
            } else {
                assert_eq!(found, None, "{q:?} must NOT accept {unit:?} (owned by {owner:?})");
            }
        }
    }
}
