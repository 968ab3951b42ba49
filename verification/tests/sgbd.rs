//! Tests of the text encoding and of the container parser.
use klartext::sgbd::cp1252::{decode, encode};
use klartext::sgbd::prg::{
    deobf_u32, deobfuscate, parse_cells, plausible_count, raw_u32, read_string, Prg, SgbdError,
    DATA_OFFSET, ENTRY_CELL_PTR, ENTRY_COLUMNS, ENTRY_ROWS, OFFSET_TABLE_DIR, TABLE_ENTRY_SIZE,
    XOR_KEY,
};

const MAGIC: &[u8] = b"@EDIABAS OBJECT";

struct Tbl<'a> {
    name: &'a str,
    columns: &'a [&'a str],
    rows: &'a [&'a [&'a str]],
}

/// A minimal container with the given tables: a plaintext header, then an obfuscated body of the
/// count, the fixed entries, and the null-terminated cells.
fn build_prg(tables: &[Tbl]) -> Vec<u8> {
    let mut header = vec![0u8; DATA_OFFSET];
    header[..MAGIC.len()].copy_from_slice(MAGIC);
    header[0x10..0x14].copy_from_slice(&1u32.to_le_bytes());
    header[OFFSET_TABLE_DIR..OFFSET_TABLE_DIR + 4]
        .copy_from_slice(&u32::try_from(DATA_OFFSET).unwrap().to_le_bytes());

    let n = tables.len();
    let entries_start = DATA_OFFSET + 4;
    let cells_start = entries_start + n * TABLE_ENTRY_SIZE;

    let mut cells = Vec::new();
    let mut cell_ptrs = Vec::new();
    for t in tables {
        cell_ptrs.push(cells_start + cells.len());
        for &c in t.columns {
            cells.extend_from_slice(&cp1252_encode(c));
            cells.push(0);
        }
        for row in t.rows {
            for &c in *row {
                cells.extend_from_slice(&cp1252_encode(c));
                cells.push(0);
            }
        }
    }

    let mut body = Vec::new();
    body.extend_from_slice(&u32::try_from(n).unwrap().to_le_bytes());
    for (i, t) in tables.iter().enumerate() {
        let mut entry = vec![0u8; TABLE_ENTRY_SIZE];
        entry[..t.name.len()].copy_from_slice(t.name.as_bytes());
        entry[ENTRY_CELL_PTR..ENTRY_CELL_PTR + 4]
            .copy_from_slice(&u32::try_from(cell_ptrs[i]).unwrap().to_le_bytes());
        entry[ENTRY_COLUMNS..ENTRY_COLUMNS + 4]
            .copy_from_slice(&u32::try_from(t.columns.len()).unwrap().to_le_bytes());
        entry[ENTRY_ROWS..ENTRY_ROWS + 4]
            .copy_from_slice(&u32::try_from(t.rows.len()).unwrap().to_le_bytes());
        body.extend_from_slice(&entry);
    }
    body.extend_from_slice(&cells);

    for b in &mut body {
        *b ^= XOR_KEY;
    }
    header.extend_from_slice(&body);
    header
}

/// Latin-1 text as its bytes.
fn cp1252_encode(s: &str) -> Vec<u8> {
    s.chars().map(|c| u8::try_from(u32::from(c)).expect("Latin-1 only")).collect()
}

#[test]
fn ascii_is_identity() {
    assert_eq!(decode(b"STATUS_MOTORTEMPERATUR"), "STATUS_MOTORTEMPERATUR");
}

#[test]
fn latin1_high_range_maps_to_same_code_point() {
    assert_eq!(decode(&[0xB0]), "°");
    assert_eq!(decode(&[0xE4]), "ä");
    assert_eq!(decode(&[0xFC]), "ü");
    assert_eq!(decode(&[0xDF]), "ß");
}

#[test]
fn cp1252_specials_differ_from_latin1() {
    assert_eq!(decode(&[0x80]), "€");
    assert_eq!(decode(&[0x92]), "\u{2019}");
}

#[test]
fn undefined_positions_are_identity() {
    assert_eq!(decode(&[0x81]), "\u{0081}");
    assert_eq!(decode(&[0x8D]), "\u{008D}");
}

#[test]
fn encode_is_one_byte_per_char_not_utf8() {
    assert_eq!(encode("Ö"), vec![0xD6]);
    assert_eq!(encode("Öl"), vec![0xD6, b'l']);
    assert_eq!(encode("degC"), b"degC");
}

#[test]
fn encode_reverses_the_cp1252_high_block() {
    assert_eq!(encode("€"), vec![0x80]);
    assert_eq!(encode("\u{2019}"), vec![0x92]);
    assert_eq!(encode("\u{0081}"), vec![0x81]);
}

#[test]
fn encode_round_trips_every_byte_through_decode() {
    for b in 0u8..=0xFF {
        let text = decode(&[b]);
        assert_eq!(encode(&text), vec![b], "byte {b:#04X} did not round-trip");
    }
}

#[test]
fn encode_replaces_an_unrepresentable_char_with_question_mark() {
    assert_eq!(encode("\u{1F600}"), vec![b'?']);
}

#[test]
fn decode_restores_a_text_of_the_repertoire() {
    let text = "Kühlmittel 90 °C – 12 €";
    assert_eq!(decode(&encode(text)), text);
}

#[test]
fn parses_single_table_with_header_and_rows() {
    let bytes = build_prg(&[Tbl {
        name: "SG_FUNKTIONEN",
        columns: &["ID", "MUL", "ADD"],
        rows: &[&["0x4BC3", "0.100000", "-273.140000"], &["0x4BC4", "1.0", "0.0"]],
    }]);
    let prg = Prg::parse(&bytes).expect("valid SGBD");
    let t = prg.table("SG_FUNKTIONEN").expect("SG_FUNKTIONEN present");
    assert_eq!(t.columns, ["ID", "MUL", "ADD"]);
    assert_eq!(t.rows.len(), 2);
    assert_eq!(t.rows[0], ["0x4BC3", "0.100000", "-273.140000"]);
    assert_eq!(t.rows[1], ["0x4BC4", "1.0", "0.0"]);
}

#[test]
fn rejects_bad_magic() {
    let err = Prg::parse(b"not an sgbd file at all..........").unwrap_err();
    assert!(matches!(err, SgbdError::BadMagic));
}

#[test]
fn rejects_truncated_header() {
    let err = Prg::parse(MAGIC).unwrap_err();
    assert!(matches!(err, SgbdError::Truncated { .. }));
}

#[test]
fn a_truncated_header_says_what_was_needed() {
    assert_eq!(Prg::parse(MAGIC).unwrap_err(), SgbdError::Truncated { needed: 0x88, got: 15 });
}

#[test]
fn unknown_table_is_none() {
    let bytes = build_prg(&[Tbl { name: "JOBRESULT", columns: &["A"], rows: &[&["1"]] }]);
    let prg = Prg::parse(&bytes).unwrap();
    assert!(prg.table("SG_FUNKTIONEN").is_none());
    assert_eq!(prg.tables().len(), 1);
}

#[test]
fn selects_named_table_among_several_and_decodes_cp1252() {
    let bytes = build_prg(&[
        Tbl { name: "FORTTEXTE", columns: &["TEXT"], rows: &[&["x"]] },
        Tbl {
            name: "SG_FUNKTIONEN",
            columns: &["EINHEIT", "INFO"],
            rows: &[&["°C", "Kühlmitteltemperatur"]],
        },
    ]);
    let prg = Prg::parse(&bytes).unwrap();
    let t = prg.table("SG_FUNKTIONEN").expect("present");
    assert_eq!(t.rows[0][0], "°C");
    assert_eq!(t.rows[0][1], "Kühlmitteltemperatur");
}

#[test]
fn parses_realistic_sg_funktionen_row() {
    let cols = [
        "ARG", "ID", "RESULTNAME", "INFO", "EINHEIT", "LABEL", "L/H", "DATENTYP", "NAME", "MUL",
        "DIV", "ADD", "SG_ADR", "SERVICE", "ARG_TABELLE", "RES_TABELLE",
    ];
    let row = [
        "ITMOT",
        "0x4BC3",
        "STAT_MOTORTEMPERATUR_WERT",
        "Motortemperatur",
        "degC",
        "EngDa_tEng",
        "-",
        "unsigned int",
        "-",
        "0.100000",
        "-",
        "-273.140000",
        "12",
        "22;2C",
        "-",
        "-",
    ];
    let bytes = build_prg(&[Tbl { name: "SG_FUNKTIONEN", columns: &cols, rows: &[&row] }]);
    let prg = Prg::parse(&bytes).unwrap();
    let t = prg.table("SG_FUNKTIONEN").unwrap();
    assert_eq!(t.columns.len(), 16);
    assert_eq!(t.rows[0][1], "0x4BC3");
    assert_eq!(t.rows[0][7], "unsigned int");
    assert_eq!(t.rows[0][9], "0.100000");
    assert_eq!(t.rows[0][11], "-273.140000");
    assert_eq!(t.rows[0][13], "22;2C");
}

#[test]
fn a_cut_container_loses_its_incomplete_row() {
    let bytes = build_prg(&[Tbl {
        name: "T",
        columns: &["A", "B"],
        rows: &[&["1", "2"], &["3", "4"]],
    }]);
    // The last cell and its terminator are two bytes: without them the second row is incomplete.
    let cut = Prg::parse(&bytes[..bytes.len() - 2]).unwrap();
    assert_eq!(cut.tables()[0].rows, vec![vec!["1", "2"]]);
    for len in 0x88..bytes.len() {
        let prg = Prg::parse(&bytes[..len]).unwrap();
        for t in prg.tables() {
            for row in &t.rows {
                assert_eq!(row.len(), t.columns.len());
            }
        }
    }
}

#[test]
fn obfuscation_covers_the_body_only_and_undoes_itself() {
    assert_eq!(deobfuscate(0x41, DATA_OFFSET - 1), 0x41);
    assert_eq!(deobfuscate(0x41, DATA_OFFSET), 0x41 ^ 0xF7);
    assert_eq!(deobfuscate(deobfuscate(0x41, DATA_OFFSET), DATA_OFFSET), 0x41);
}

#[test]
fn numbers_are_little_endian_and_bounded() {
    let bytes = [0x01, 0x02, 0x00, 0x00, 0x09];
    assert_eq!(raw_u32(&bytes, 0), Some(0x0201));
    assert_eq!(raw_u32(&bytes, 2), None);
    assert_eq!(deobf_u32(&bytes, 0), Some(0x0201));
    assert_eq!(plausible_count(Some(3)), Some(3));
    assert_eq!(plausible_count(None), None);
    assert_eq!(plausible_count(Some(u32::MAX)), None);
}

#[test]
fn a_string_ends_at_its_null_byte() {
    assert_eq!(read_string(b"AB\0CD", 0, 64), ("AB".to_string(), 3));
    assert_eq!(read_string(b"AB\0CD", 3, 1), ("C".to_string(), 1));
    assert_eq!(read_string(b"AB\0CD", 9, 64), (String::new(), 0));
    assert_eq!(parse_cells(b"A\0B\0C\0D\0", 0, 2, 1), vec![vec!["A", "B"], vec!["C", "D"]]);
}
