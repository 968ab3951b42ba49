//! Freeze-frame decoding for fault codes: snapshot and extended-data record regions.
//!
//! A fault's freeze-frame is the set of conditions the ECU latched when the fault occurred. The
//! response carries identifier-keyed records with *no per-field length on the wire*: width, scaling
//! and unit come from the ECU's tables. A walk stops at the first identifier it cannot size and
//! gives the remainder as an undecoded tail, never guessing a width. The scaled value itself is
//! floating-point arithmetic, and the application's part; the raw number and the factors are here.
use std::collections::HashMap;
use vstd::prelude::*;
use crate::bytes::{copy_bytes, copy_range, read_be16, read_be32};
use crate::semantic::catalog::EnvCondLabel;
use crate::semantic::measurement::{
    cell_text, copy_factor, factor_cell, id_cell, Factor, RawNumber,
};
use crate::sgbd::prg::{Prg, Table};
use crate::text::{
    from_chars, parse_hex_cell, parse_unsigned, position_of, prefer, push_hex_byte, push_text,
    same_chars_ignoring_case, same_text, to_chars, trim, trim_text,
};
use crate::uds::DtcRecordRegion;

verus! {

broadcast use vstd::std_specs::hash::group_hash_axioms;

// ---------------------------------------------------------------------------
// Sixty-four-bit numbers
// ---------------------------------------------------------------------------

/// The number of 64-bit values.
pub open spec fn two_to_64() -> int {
    0x1_0000_0000_0000_0000
}

/// The lowest 64 bits of a big-endian number.
pub open spec fn low_64(bytes: Seq<u8>) -> int {
    crate::bytes::be_value(bytes) as int % two_to_64()
}

/// The lowest 64 bits of a big-endian number, as a signed value.
pub open spec fn signed_64(bytes: Seq<u8>) -> int {
    if low_64(bytes) < 0x8000_0000_0000_0000 {
        low_64(bytes)
    } else {
        low_64(bytes) - two_to_64()
    }
}

proof fn lemma_low_64_step(x: int, b: int)
    requires
        0 <= x,
        0 <= b < 256,
    ensures
        (x * 256 + b) % two_to_64() == (x % two_to_64()) % 0x100_0000_0000_0000 * 256 + b,
{
    let c = two_to_64();
    let q = x / c;
    let a = x % c;
    let p = a / 0x100_0000_0000_0000;
    let low = a % 0x100_0000_0000_0000;
    assert(x == q * c + a) by {
        vstd::arithmetic::div_mod::lemma_fundamental_div_mod(x, c);
    }
    assert(a == p * 0x100_0000_0000_0000 + low);
    assert(x * 256 + b == (q * 256 + p) * c + (low * 256 + b));
    vstd::arithmetic::div_mod::lemma_fundamental_div_mod_converse(
        x * 256 + b,
        c,
        q * 256 + p,
        low * 256 + b,
    );
}

/// The lowest 64 bits of the big-endian number in `bytes`.
fn read_low_64(bytes: &[u8]) -> (r: u64)
    ensures
        r == low_64(bytes@),
{
    let mut acc: u64 = 0;
    let mut i: usize = 0;
    assert(low_64(bytes@.take(0)) == 0);
    while i < bytes.len()
        invariant
            i <= bytes.len(),
            acc == low_64(bytes@.take(i as int)),
        decreases bytes.len() - i,
    {
        proof {
            let upto = bytes@.take(i + 1);
            assert(upto.drop_last() =~= bytes@.take(i as int));
            lemma_low_64_step(
                crate::bytes::be_value(bytes@.take(i as int)) as int,
                bytes@[i as int] as int,
            );
        }
        acc = acc % 0x100_0000_0000_0000 * 256 + bytes[i] as u64;
        i = i + 1;
    }
    assert(bytes@.take(i as int) =~= bytes@);
    acc
}

/// The lowest 64 bits of the big-endian number in `bytes`, as a signed value.
fn read_signed_64(bytes: &[u8]) -> (r: i64)
    ensures
        r == signed_64(bytes@),
{
    let low: u64 = read_low_64(bytes);
    if low < 0x8000_0000_0000_0000 {
        low as i64
    } else {
        let back: u64 = 0xFFFF_FFFF_FFFF_FFFF - low;
        -(back as i64) - 1
    }
}

// ---------------------------------------------------------------------------
// Definitions
// ---------------------------------------------------------------------------

/// How a snapshot field's raw bytes are interpreted.
#[derive(Debug, Clone, Copy, PartialEq, Eq, Structural)]
pub enum Repr {
    /// A big-endian unsigned integer of the field's width.
    Unsigned,
    /// A 4-byte big-endian IEEE-754 float.
    Float,
}

/// One environmental-condition definition: how to size, scale, and name a field.
#[derive(Debug, Clone, PartialEq, Eq)]
pub struct EnvCondDef {
    pub uwnr: u16,
    pub text_de: String,
    pub unit_sgbd: String,
    pub width: usize,
    pub repr: Repr,
    pub mul: Factor,
    pub div: Factor,
    pub add: Factor,
    /// The all-ones value of a mask-typed identifier, meaning "not available".
    pub sentinel: Option<u64>,
}

/// What an [`EnvCondDef`] holds.
#[verifier::ext_equal]
pub struct EnvCondView {
    pub uwnr: u16,
    pub text_de: Seq<char>,
    pub unit_sgbd: Seq<char>,
    pub width: nat,
    pub repr: Repr,
    pub mul: crate::semantic::measurement::FactorView,
    pub div: crate::semantic::measurement::FactorView,
    pub add: crate::semantic::measurement::FactorView,
    pub sentinel: Option<u64>,
}

impl View for EnvCondDef {
    type V = EnvCondView;

    open spec fn view(&self) -> EnvCondView {
        EnvCondView {
            uwnr: self.uwnr,
            text_de: self.text_de@,
            unit_sgbd: self.unit_sgbd@,
            width: self.width as nat,
            repr: self.repr,
            mul: self.mul@,
            div: self.div@,
            add: self.add@,
            sentinel: self.sentinel,
        }
    }
}

/// The width, interpretation and sentinel of a field's type: a type name, or a hex mask whose byte
/// length is the width and whose value is the sentinel.
pub open spec fn type_of(s: Seq<char>) -> Option<(nat, Repr, Option<u64>)> {
    let t = crate::text::trimmed(s);
    if crate::text::has_hex_prefix(t) {
        let hex = t.skip(2);
        if hex.len() == 0 || hex.len() % 2 != 0 || hex.len() > 16 {
            None
        } else {
            match crate::text::unsigned_value(hex, 16, u64::MAX as int) {
                Some(sentinel) => Some(
                    (hex.len() / 2, Repr::Unsigned, Some(sentinel as u64)),
                ),
                None => None,
            }
        }
    } else if t == "unsigned char"@ || t == "u char"@ {
        Some((1nat, Repr::Unsigned, None))
    } else if t == "unsigned int"@ || t == "u int"@ {
        Some((2nat, Repr::Unsigned, None))
    } else if t == "unsigned long"@ || t == "u long"@ {
        Some((4nat, Repr::Unsigned, None))
    } else if t == "motorola float"@ {
        Some((4nat, Repr::Float, None))
    } else {
        None
    }
}

/// Resolve a type cell to its width, interpretation and sentinel, or `None` if unrecognized: the
/// field then cannot be sized.
pub fn resolve_uwtyp(uwtyp: &str) -> (r: Option<(usize, Repr, Option<u64>)>)
    ensures
        type_of(uwtyp@) == (match r {
            Some((width, repr, sentinel)) => Some((width as nat, repr, sentinel)),
            None => None,
        }),
{
    let chars = to_chars(uwtyp);
    let t = trim(chars.as_slice());
    if t.len() >= 2 && t[0] == '0' && (t[1] == 'x' || t[1] == 'X') {
        let hex = vstd::slice::slice_subrange(t, 2, t.len());
        assert(hex@ =~= t@.skip(2));
        if hex.len() == 0 || hex.len() % 2 != 0 || hex.len() > 16 {
            return None;
        }
        let width: usize = hex.len() / 2;
        return match parse_unsigned(hex, 16, u64::MAX) {
            Some(sentinel) => Some((width, Repr::Unsigned, Some(sentinel))),
            None => None,
        };
    }
    let text = from_chars(t);
    let t = text.as_str();
    if same_text(t, "unsigned char") || same_text(t, "u char") {
        Some((1, Repr::Unsigned, None))
    } else if same_text(t, "unsigned int") || same_text(t, "u int") {
        Some((2, Repr::Unsigned, None))
    } else if same_text(t, "unsigned long") || same_text(t, "u long") {
        Some((4, Repr::Unsigned, None))
    } else if same_text(t, "motorola float") {
        Some((4, Repr::Float, None))
    } else {
        None
    }
}

/// Where a table of conditions keeps what a definition needs.
pub struct EnvColumnsView {
    pub uwnr: int,
    pub uwtext: int,
    pub unit: int,
    pub uwtyp: int,
    pub mul: int,
    pub div: int,
    pub add: int,
}

/// The columns of a table of conditions, if all are there.
pub open spec fn env_columns(columns: Seq<Seq<char>>) -> Option<EnvColumnsView> {
    let at = |name: Seq<char>| crate::text::position(columns, name);
    if at("UWNR"@) is Some && at("UWTEXT"@) is Some && at("UW_EINH"@) is Some && at(
        "UWTYP"@,
    ) is Some && at("MUL"@) is Some && at("DIV"@) is Some && at("ADD"@) is Some {
        Some(
            EnvColumnsView {
                uwnr: at("UWNR"@)->0,
                uwtext: at("UWTEXT"@)->0,
                unit: at("UW_EINH"@)->0,
                uwtyp: at("UWTYP"@)->0,
                mul: at("MUL"@)->0,
                div: at("DIV"@)->0,
                add: at("ADD"@)->0,
            },
        )
    } else {
        None
    }
}

/// The definition in a row: skipped when its identifier, type, or a factor does not parse.
pub open spec fn env_in(c: EnvColumnsView, row: Seq<Seq<char>>) -> Option<EnvCondView> {
    let typed = if c.uwtyp < row.len() {
        type_of(row[c.uwtyp])
    } else {
        None
    };
    match (
        crate::semantic::measurement::id_at(row, c.uwnr),
        typed,
        crate::semantic::measurement::factor_at(row, c.mul),
        crate::semantic::measurement::factor_at(row, c.div),
        crate::semantic::measurement::factor_at(row, c.add),
    ) {
        (Some(uwnr), Some((width, repr, sentinel)), Some(mul), Some(div), Some(add)) => Some(
            EnvCondView {
                uwnr: uwnr as u16,
                text_de: crate::semantic::measurement::cell_or_empty(row, c.uwtext),
                unit_sgbd: crate::semantic::measurement::cell_or_empty(row, c.unit),
                width,
                repr,
                mul,
                div,
                add,
                sentinel,
            },
        ),
        _ => None,
    }
}

/// Definitions with those of rows put over them; a later row replaces an earlier one.
pub open spec fn with_rows(
    defs: Map<u16, EnvCondView>,
    c: EnvColumnsView,
    rows: Seq<Seq<Seq<char>>>,
) -> Map<u16, EnvCondView>
    decreases rows.len(),
{
    if rows.len() == 0 {
        defs
    } else {
        let before = with_rows(defs, c, rows.drop_last());
        match env_in(c, rows.last()) {
            Some(def) => before.insert(def.uwnr, def),
            None => before,
        }
    }
}

/// The first table of a name, ignoring ASCII case.
pub open spec fn table_named(tables: Seq<crate::sgbd::prg::TableView>, name: Seq<char>) -> Option<
    crate::sgbd::prg::TableView,
>
    decreases tables.len(),
{
    if tables.len() == 0 {
        None
    } else if crate::text::same_ignoring_case(tables[0].name, name) {
        Some(tables[0])
    } else {
        table_named(tables.skip(1), name)
    }
}

/// Definitions with those of the table of a name put over them.
pub open spec fn with_table(
    defs: Map<u16, EnvCondView>,
    tables: Seq<crate::sgbd::prg::TableView>,
    name: Seq<char>,
) -> Map<u16, EnvCondView> {
    match table_named(tables, name) {
        Some(table) => match env_columns(table.columns) {
            Some(c) => with_rows(defs, c, table.rows),
            None => defs,
        },
        None => defs,
    }
}

/// The definitions of an ECU: its measurement conditions, overridden by the standard identifiers.
pub open spec fn env_defs(tables: Seq<crate::sgbd::prg::TableView>) -> Map<u16, EnvCondView> {
    with_table(
        with_table(Map::<u16, EnvCondView>::empty(), tables, "FUMWELTTEXTE"@),
        tables,
        "DTCSNAPSHOTIDENTIFIER"@,
    )
}

proof fn lemma_with_rows(
    a: Map<u16, EnvCondView>,
    b: Map<u16, EnvCondView>,
    c: EnvColumnsView,
    rows: Seq<Seq<Seq<char>>>,
    uwnr: u16,
)
    requires
        with_rows(b, c, rows).contains_key(uwnr),
        !b.contains_key(uwnr),
    ensures
        with_rows(a, c, rows).contains_key(uwnr),
        with_rows(a, c, rows)[uwnr] == with_rows(b, c, rows)[uwnr],
    decreases rows.len(),
{
    if rows.len() > 0 {
        match env_in(c, rows.last()) {
            Some(def) => {
                if def.uwnr != uwnr {
                    lemma_with_rows(a, b, c, rows.drop_last(), uwnr);
                }
            },
            None => {
                lemma_with_rows(a, b, c, rows.drop_last(), uwnr);
            },
        }
    }
}

/// A standard identifier is defined by the standard table, whatever the measurement conditions say
/// of it.
pub proof fn law_standard_identifiers_take_precedence(
    tables: Seq<crate::sgbd::prg::TableView>,
    uwnr: u16,
)
    requires
        with_table(Map::<u16, EnvCondView>::empty(), tables, "DTCSNAPSHOTIDENTIFIER"@).contains_key(
            uwnr,
        ),
    ensures
        env_defs(tables).contains_key(uwnr),
        env_defs(tables)[uwnr] == with_table(
            Map::<u16, EnvCondView>::empty(),
            tables,
            "DTCSNAPSHOTIDENTIFIER"@,
        )[uwnr],
{
    let first = with_table(Map::<u16, EnvCondView>::empty(), tables, "FUMWELTTEXTE"@);
    if let Some(table) = table_named(tables, "DTCSNAPSHOTIDENTIFIER"@) {
        if let Some(c) = env_columns(table.columns) {
            lemma_with_rows(first, Map::<u16, EnvCondView>::empty(), c, table.rows, uwnr);
        }
    }
}

/// Resolved column positions of a table of conditions.
struct EnvColumns {
    uwnr: usize,
    uwtext: usize,
    unit: usize,
    uwtyp: usize,
    mul: usize,
    div: usize,
    add: usize,
}

impl View for EnvColumns {
    type V = EnvColumnsView;

    closed spec fn view(&self) -> EnvColumnsView {
        EnvColumnsView {
            uwnr: self.uwnr as int,
            uwtext: self.uwtext as int,
            unit: self.unit as int,
            uwtyp: self.uwtyp as int,
            mul: self.mul as int,
            div: self.div as int,
            add: self.add as int,
        }
    }
}

impl EnvColumns {
    /// Resolve the columns by header name, or `None` if a needed one is absent.
    fn resolve(columns: &[String]) -> (r: Option<EnvColumns>)
        ensures
            env_columns(crate::sgbd::prg::row_view(columns@)) == (match r {
                Some(c) => Some(c@),
                None => None,
            }),
    {
        let uwnr = position_of(columns, "UWNR");
        let uwtext = position_of(columns, "UWTEXT");
        let unit = position_of(columns, "UW_EINH");
        let uwtyp = position_of(columns, "UWTYP");
        let mul = position_of(columns, "MUL");
        let div = position_of(columns, "DIV");
        let add = position_of(columns, "ADD");
        match (uwnr, uwtext, unit, uwtyp, mul, div, add) {
            (
                Some(uwnr),
                Some(uwtext),
                Some(unit),
                Some(uwtyp),
                Some(mul),
                Some(div),
                Some(add),
            ) => Some(EnvColumns { uwnr, uwtext, unit, uwtyp, mul, div, add }),
            _ => None,
        }
    }
}

/// Parse one row into an [`EnvCondDef`], or `None` to skip it.
fn parse_env_row(cols: &EnvColumns, row: &[String]) -> (r: Option<EnvCondDef>)
    ensures
        env_in(cols@, crate::sgbd::prg::row_view(row@)) == (match r {
            Some(def) => Some(def@),
            None => None,
        }),
{
    let uwnr: u16 = match id_cell(row, cols.uwnr) {
        Some(uwnr) => uwnr,
        None => {
            return None;
        },
    };
    if cols.uwtyp >= row.len() {
        return None;
    }
    let (width, repr, sentinel) = match resolve_uwtyp(row[cols.uwtyp].as_str()) {
        Some(typed) => typed,
        None => {
            return None;
        },
    };
    let mul = match factor_cell(row, cols.mul) {
        Some(f) => f,
        None => {
            return None;
        },
    };
    let div = match factor_cell(row, cols.div) {
        Some(f) => f,
        None => {
            return None;
        },
    };
    let add = match factor_cell(row, cols.add) {
        Some(f) => f,
        None => {
            return None;
        },
    };
    Some(
        EnvCondDef {
            uwnr,
            text_de: cell_text(row, cols.uwtext),
            unit_sgbd: cell_text(row, cols.unit),
            width,
            repr,
            mul,
            div,
            add,
            sentinel,
        },
    )
}

/// Find a table by name, ignoring ASCII case.
fn find_table<'a>(tables: &'a [Table], name: &str) -> (r: Option<&'a Table>)
    ensures
        table_named(crate::sgbd::prg::tables_view(tables@), name@) == (match r {
            Some(t) => Some(t@),
            None => None,
        }),
{
    let ghost views = crate::sgbd::prg::tables_view(tables@);
    let wanted = to_chars(name);
    let mut i: usize = 0;
    assert(views.skip(0) =~= views);
    while i < tables.len()
        invariant
            i <= tables.len(),
            wanted@ == name@,
            views == crate::sgbd::prg::tables_view(tables@),
            table_named(views, name@) == table_named(views.skip(i as int), name@),
        decreases tables.len() - i,
    {
        let candidate = to_chars(tables[i].name.as_str());
        assert(views.skip(i as int)[0] == tables@[i as int]@);
        if same_chars_ignoring_case(candidate.as_slice(), wanted.as_slice()) {
            return Some(&tables[i]);
        }
        assert(views.skip(i as int).skip(1) =~= views.skip(i + 1));
        i = i + 1;
    }
    None
}

/// The views of definitions.
pub open spec fn defs_view(defs: Map<u16, EnvCondDef>) -> Map<u16, EnvCondView> {
    Map::new(|k: u16| defs.contains_key(k), |k: u16| defs[k]@)
}

/// The condition definitions of one ECU, by identifier.
///
/// An ECU with none yields an empty set, and a snapshot region then stays raw.
#[derive(Debug, Clone)]
pub struct SnapshotDefs {
    by_id: HashMap<u16, EnvCondDef>,
}

impl View for SnapshotDefs {
    type V = Map<u16, EnvCondView>;

    closed spec fn view(&self) -> Map<u16, EnvCondView> {
        defs_view(self.by_id@)
    }
}

impl Default for SnapshotDefs {
    /// No definitions.
    fn default() -> (r: SnapshotDefs)
        ensures
            r@ == Map::<u16, EnvCondView>::empty(),
    {
        let r = SnapshotDefs { by_id: HashMap::new() };
        assert(r@ =~= Map::<u16, EnvCondView>::empty());
        r
    }
}

// ---------------------------------------------------------------------------
// Snapshot regions
// ---------------------------------------------------------------------------

/// One decoded freeze-frame field: identifier, label, raw number, factors, unit, availability.
#[derive(Debug, Clone, PartialEq, Eq)]
pub struct SnapshotField {
    /// The 2-byte condition identifier.
    pub uwnr: u16,
    /// The best available human label.
    pub label: String,
    /// The raw number, or `None` when unavailable. Its value is `number · mul / div + add`.
    pub number: Option<RawNumber>,
    /// The multiplier.
    pub mul: Factor,
    /// The divisor.
    pub div: Factor,
    /// The offset.
    pub add: Factor,
    /// The engineering unit, when the field has a real one.
    pub unit: Option<String>,
    /// False when the ECU reported the "not available" sentinel.
    pub available: bool,
    /// The raw field bytes.
    pub raw: Vec<u8>,
}

/// What a [`SnapshotField`] holds.
#[verifier::ext_equal]
pub struct FieldView {
    pub uwnr: u16,
    pub label: Seq<char>,
    pub number: Option<RawNumber>,
    pub mul: crate::semantic::measurement::FactorView,
    pub div: crate::semantic::measurement::FactorView,
    pub add: crate::semantic::measurement::FactorView,
    pub unit: Option<Seq<char>>,
    pub available: bool,
    pub raw: Seq<u8>,
}

impl View for SnapshotField {
    type V = FieldView;

    open spec fn view(&self) -> FieldView {
        FieldView {
            uwnr: self.uwnr,
            label: self.label@,
            number: self.number,
            mul: self.mul@,
            div: self.div@,
            add: self.add@,
            unit: crate::text::opt_view(self.unit),
            available: self.available,
            raw: self.raw@,
        }
    }
}

/// The views of fields.
pub open spec fn fields_view(v: Seq<SnapshotField>) -> Seq<FieldView> {
    Seq::new(v.len(), |i: int| v[i]@)
}

/// The result of decoding a snapshot region.
#[derive(Debug, Clone, PartialEq, Eq)]
pub struct DecodedSnapshot {
    /// The decoded fields, in wire order.
    pub fields: Vec<SnapshotField>,
    /// Bytes the walk could not decode (unknown identifier or a short region).
    pub undecoded_tail: Option<Vec<u8>>,
}

/// A trimmed text that is no placeholder (`-` or empty).
pub open spec fn real_text(s: Seq<char>) -> Option<Seq<char>> {
    let t = crate::text::trimmed(s);
    if t.len() == 0 || t == "-"@ {
        None
    } else {
        Some(t)
    }
}

/// A real engineering unit: neither a placeholder nor a range hint (`0-n`).
pub open spec fn real_unit(s: Seq<char>) -> Option<Seq<char>> {
    match real_text(s) {
        Some(t) => if t == "0-n"@ {
            None
        } else {
            Some(t)
        },
        None => None,
    }
}

/// The label of a field without one: `UW 0x` and the identifier's four hexadecimal digits.
pub open spec fn fallback_label(uwnr: u16) -> Seq<char> {
    "UW 0x"@ + crate::text::hex_byte((uwnr / 0x100) as u8) + crate::text::hex_byte(
        (uwnr % 0x100) as u8,
    )
}

/// The first catalog label for an identifier.
pub open spec fn label_for(labels: Seq<EnvCondLabel>, uwnr: u16) -> Option<EnvCondLabel>
    decreases labels.len(),
{
    if labels.len() == 0 {
        None
    } else if labels[0].uwnr == uwnr as u32 {
        Some(labels[0])
    } else {
        label_for(labels.skip(1), uwnr)
    }
}

/// The best label of a field: the catalog's English, its German, the ECU's own text, the fallback.
pub open spec fn label_of(label: Option<EnvCondLabel>, def: EnvCondView, uwnr: u16) -> Seq<char> {
    let title = match label {
        Some(l) => crate::text::first_of(
            crate::text::opt_view(l.title_en),
            crate::text::opt_view(l.title_de),
        ),
        None => None,
    };
    match title {
        Some(t) => t,
        None => match real_text(def.text_de) {
            Some(t) => t,
            None => fallback_label(uwnr),
        },
    }
}

/// The unit of a field: the catalog's, else the ECU's own.
pub open spec fn unit_of(label: Option<EnvCondLabel>, def: EnvCondView) -> Option<Seq<char>> {
    let catalog = match label {
        Some(l) => match l.unit {
            Some(u) => real_unit(u@),
            None => None,
        },
        None => None,
    };
    crate::text::first_of(catalog, real_unit(def.unit_sgbd))
}

/// Whether a field is available: its number is not the sentinel.
pub open spec fn is_available(def: EnvCondView, data: Seq<u8>) -> bool {
    def.repr == Repr::Unsigned ==> !(def.sentinel matches Some(n) && n == low_64(data))
}

/// The raw number of a field, where it is available.
pub open spec fn number_of(def: EnvCondView, data: Seq<u8>) -> Option<RawNumber> {
    match def.repr {
        Repr::Unsigned => if is_available(def, data) {
            Some(RawNumber::Unsigned(low_64(data) as u64))
        } else {
            None
        },
        Repr::Float => if data.len() == 4 {
            Some(
                RawNumber::FloatBits(
                    crate::bytes::be32(data[0], data[1], data[2], data[3]) as u32,
                ),
            )
        } else {
            None
        },
    }
}

/// The field of an identifier, from its definition and bytes.
pub open spec fn field_of(
    def: EnvCondView,
    labels: Seq<EnvCondLabel>,
    uwnr: u16,
    data: Seq<u8>,
) -> FieldView {
    let label = label_for(labels, uwnr);
    FieldView {
        uwnr,
        label: label_of(label, def, uwnr),
        number: number_of(def, data),
        mul: def.mul,
        div: def.div,
        add: def.add,
        unit: unit_of(label, def),
        available: is_available(def, data),
        raw: data,
    }
}

/// Whether the next identifier of a region can be sized: its two bytes are there, it is defined,
/// and its bytes are there.
pub open spec fn can_size(defs: Map<u16, EnvCondView>, s: Seq<u8>) -> bool {
    &&& s.len() >= 2
    &&& defs.contains_key(crate::bytes::be16(s[0], s[1]) as u16)
    &&& s.len() >= 2 + defs[crate::bytes::be16(s[0], s[1]) as u16].width
}

/// The fields of what is left of a region, `left` identifiers before the next record. A record is
/// a number, a count, and that many identifiers with their bytes.
pub open spec fn fields_in(
    defs: Map<u16, EnvCondView>,
    labels: Seq<EnvCondLabel>,
    s: Seq<u8>,
    left: nat,
) -> Seq<FieldView>
    decreases s.len(),
{
    if left == 0 {
        if s.len() < 2 {
            Seq::<FieldView>::empty()
        } else {
            fields_in(defs, labels, s.skip(2), s[1] as nat)
        }
    } else if can_size(defs, s) {
        let uwnr = crate::bytes::be16(s[0], s[1]) as u16;
        let end = 2 + defs[uwnr].width as int;
        seq![field_of(defs[uwnr], labels, uwnr, s.subrange(2, end))] + fields_in(
            defs,
            labels,
            s.skip(end),
            (left - 1) as nat,
        )
    } else {
        Seq::<FieldView>::empty()
    }
}

/// What the walk leaves of a region.
pub open spec fn tail_in(defs: Map<u16, EnvCondView>, s: Seq<u8>, left: nat) -> Seq<u8>
    decreases s.len(),
{
    if left == 0 {
        if s.len() < 2 {
            s
        } else {
            tail_in(defs, s.skip(2), s[1] as nat)
        }
    } else if can_size(defs, s) {
        tail_in(
            defs,
            s.skip(2 + defs[crate::bytes::be16(s[0], s[1]) as u16].width as int),
            (left - 1) as nat,
        )
    } else {
        s
    }
}

/// The tail as it is reported: nothing where the walk left nothing.
pub open spec fn reported_tail(tail: Seq<u8>) -> Option<Seq<u8>> {
    if tail.len() > 0 {
        Some(tail)
    } else {
        None
    }
}

/// The view of an optional byte string.
pub open spec fn opt_bytes(v: Option<Vec<u8>>) -> Option<Seq<u8>> {
    match v {
        Some(v) => Some(v@),
        None => None,
    }
}

/// The bytes of identifiers: each its two bytes and its data.
pub open spec fn identifier_bytes(ids: Seq<(u16, Seq<u8>)>) -> Seq<u8>
    decreases ids.len(),
{
    if ids.len() == 0 {
        Seq::<u8>::empty()
    } else {
        crate::bytes::be16_bytes(ids[0].0) + ids[0].1 + identifier_bytes(ids.skip(1))
    }
}

/// The fields of identifiers.
pub open spec fn fields_of(
    defs: Map<u16, EnvCondView>,
    labels: Seq<EnvCondLabel>,
    ids: Seq<(u16, Seq<u8>)>,
) -> Seq<FieldView> {
    Seq::new(ids.len(), |i: int| field_of(defs[ids[i].0], labels, ids[i].0, ids[i].1))
}

/// Whether every identifier is defined, and has as many bytes as its definition says.
pub open spec fn sized(defs: Map<u16, EnvCondView>, ids: Seq<(u16, Seq<u8>)>) -> bool {
    forall|i: int|
        0 <= i < ids.len() ==> defs.contains_key((#[trigger] ids[i]).0) && ids[i].1.len()
            == defs[ids[i].0].width
}

proof fn lemma_identifiers(
    defs: Map<u16, EnvCondView>,
    labels: Seq<EnvCondLabel>,
    ids: Seq<(u16, Seq<u8>)>,
    rest: Seq<u8>,
)
    requires
        sized(defs, ids),
    ensures
        fields_in(defs, labels, identifier_bytes(ids) + rest, ids.len()) == fields_of(
            defs,
            labels,
            ids,
        ) + fields_in(defs, labels, rest, 0),
        tail_in(defs, identifier_bytes(ids) + rest, ids.len()) == tail_in(defs, rest, 0),
    decreases ids.len(),
{
    let s = identifier_bytes(ids) + rest;
    if ids.len() == 0 {
        assert(s =~= rest);
        assert(fields_of(defs, labels, ids) + fields_in(defs, labels, rest, 0) =~= fields_in(
            defs,
            labels,
            rest,
            0,
        ));
    } else {
        let (uwnr, data) = ids[0];
        let more = ids.skip(1);
        assert(defs.contains_key(ids[0].0) && ids[0].1.len() == defs[ids[0].0].width);
        assert forall|i: int| 0 <= i < more.len() implies defs.contains_key(
            (#[trigger] more[i]).0,
        ) && more[i].1.len() == defs[more[i].0].width by {
            assert(more[i] == ids[i + 1]);
        }
        lemma_identifiers(defs, labels, more, rest);
        crate::bytes::lemma_be16_round_trip(uwnr);
        let end = 2 + data.len() as int;
        assert(s[0] == crate::bytes::be16_bytes(uwnr)[0]);
        assert(s[1] == crate::bytes::be16_bytes(uwnr)[1]);
        assert(s.subrange(2, end) =~= data);
        assert(s.skip(end) =~= identifier_bytes(more) + rest);
        assert(can_size(defs, s));
        let f = field_of(defs[uwnr], labels, uwnr, data);
        assert(fields_of(defs, labels, ids) =~= seq![f] + fields_of(defs, labels, more));
        assert(seq![f] + (fields_of(defs, labels, more) + fields_in(defs, labels, rest, 0))
            =~= fields_of(defs, labels, ids) + fields_in(defs, labels, rest, 0));
    }
}

/// A region that starts with a record of defined identifiers gives back every field of it, in
/// order, and then decodes the rest; so a region of such records is decoded whole, with no tail.
pub proof fn law_a_well_formed_record_is_decoded_whole(
    defs: Map<u16, EnvCondView>,
    labels: Seq<EnvCondLabel>,
    number: u8,
    ids: Seq<(u16, Seq<u8>)>,
    rest: Seq<u8>,
)
    requires
        ids.len() <= 255,
        sized(defs, ids),
    ensures
        ({
            let region = seq![number, ids.len() as u8] + identifier_bytes(ids) + rest;
            &&& fields_in(defs, labels, region, 0) == fields_of(defs, labels, ids) + fields_in(
                defs,
                labels,
                rest,
                0,
            )
            &&& tail_in(defs, region, 0) == tail_in(defs, rest, 0)
        }),
{
    let region = seq![number, ids.len() as u8] + identifier_bytes(ids) + rest;
    assert(region.skip(2) =~= identifier_bytes(ids) + rest);
    lemma_identifiers(defs, labels, ids, rest);
}

/// The walk never invents bytes: the tail it leaves is the end of the region.
pub proof fn law_the_tail_is_the_end_of_the_region(
    defs: Map<u16, EnvCondView>,
    s: Seq<u8>,
    left: nat,
)
    ensures
        tail_in(defs, s, left).len() <= s.len(),
        tail_in(defs, s, left) == s.skip(s.len() - tail_in(defs, s, left).len()),
    decreases s.len(),
{
    if left == 0 && s.len() >= 2 {
        law_the_tail_is_the_end_of_the_region(defs, s.skip(2), s[1] as nat);
        let tail = tail_in(defs, s.skip(2), s[1] as nat);
        assert(tail =~= s.skip(s.len() - tail.len()));
    } else if left > 0 && can_size(defs, s) {
        let end = 2 + defs[crate::bytes::be16(s[0], s[1]) as u16].width as int;
        law_the_tail_is_the_end_of_the_region(defs, s.skip(end), (left - 1) as nat);
        let tail = tail_in(defs, s.skip(end), (left - 1) as nat);
        assert(tail =~= s.skip(s.len() - tail.len()));
    } else {
        assert(s =~= s.skip(0));
    }
}

/// The record heads that the walk passes: number and count.
pub open spec fn heads_in(defs: Map<u16, EnvCondView>, s: Seq<u8>, left: nat) -> Seq<(u8, u8)>
    decreases s.len(),
{
    if left == 0 {
        if s.len() < 2 {
            Seq::<(u8, u8)>::empty()
        } else {
            seq![(s[0], s[1])] + heads_in(defs, s.skip(2), s[1] as nat)
        }
    } else if can_size(defs, s) {
        heads_in(
            defs,
            s.skip(2 + defs[crate::bytes::be16(s[0], s[1]) as u16].width as int),
            (left - 1) as nat,
        )
    } else {
        Seq::<(u8, u8)>::empty()
    }
}

/// The bytes of record heads and fields: each head in front of as many fields as it counts, and
/// each field its identifier and its raw bytes.
pub open spec fn written(heads: Seq<(u8, u8)>, fields: Seq<FieldView>, left: nat) -> Seq<u8>
    decreases heads.len() + fields.len(),
{
    if left == 0 {
        if heads.len() == 0 {
            Seq::<u8>::empty()
        } else {
            seq![heads[0].0, heads[0].1] + written(heads.skip(1), fields, heads[0].1 as nat)
        }
    } else if fields.len() == 0 {
        Seq::<u8>::empty()
    } else {
        crate::bytes::be16_bytes(fields[0].uwnr) + fields[0].raw + written(
            heads,
            fields.skip(1),
            (left - 1) as nat,
        )
    }
}

/// Nothing of a region is lost or changed: the record heads, the decoded fields with their raw
/// bytes, and the tail, written one behind the other, are the region.
pub proof fn law_the_fields_and_the_tail_are_the_region(
    defs: Map<u16, EnvCondView>,
    labels: Seq<EnvCondLabel>,
    s: Seq<u8>,
    left: nat,
)
    ensures
        written(heads_in(defs, s, left), fields_in(defs, labels, s, left), left) + tail_in(
            defs,
            s,
            left,
        ) == s,
    decreases s.len(),
{
    let heads = heads_in(defs, s, left);
    let fields = fields_in(defs, labels, s, left);
    let tail = tail_in(defs, s, left);
    if left == 0 && s.len() >= 2 {
        let rest = s.skip(2);
        law_the_fields_and_the_tail_are_the_region(defs, labels, rest, s[1] as nat);
        assert(heads.skip(1) =~= heads_in(defs, rest, s[1] as nat));
        assert(seq![s[0], s[1]] + rest =~= s);
        assert(written(heads, fields, 0) + tail =~= seq![s[0], s[1]] + (written(
            heads.skip(1),
            fields,
            s[1] as nat,
        ) + tail));
    } else if left > 0 && can_size(defs, s) {
        let uwnr = crate::bytes::be16(s[0], s[1]) as u16;
        let end = 2 + defs[uwnr].width as int;
        let rest = s.skip(end);
        let less = (left - 1) as nat;
        law_the_fields_and_the_tail_are_the_region(defs, labels, rest, less);
        assert(fields.skip(1) =~= fields_in(defs, labels, rest, less));
        assert(crate::bytes::be16_bytes(uwnr) =~= seq![s[0], s[1]]);
        assert(seq![s[0], s[1]] + s.subrange(2, end) + rest =~= s);
        assert(written(heads, fields, left) + tail =~= seq![s[0], s[1]] + s.subrange(2, end) + (
        written(heads, fields.skip(1), less) + tail));
    } else {
        assert(written(heads, fields, left) + tail =~= s);
    }
}

/// A trimmed text that is no placeholder.
pub fn non_placeholder(s: &str) -> (r: Option<String>)
    ensures
        crate::text::opt_view(r) == real_text(s@),
{
    let t = trim_text(s);
    if t.as_str().is_empty() || same_text(t.as_str(), "-") {
        None
    } else {
        Some(t)
    }
}

/// A real engineering unit, or `None` for placeholders (`-`, `0-n`, empty).
pub fn clean_unit(s: &str) -> (r: Option<String>)
    ensures
        crate::text::opt_view(r) == real_unit(s@),
{
    match non_placeholder(s) {
        Some(t) => if same_text(t.as_str(), "0-n") {
            None
        } else {
            Some(t)
        },
        None => None,
    }
}

/// The label of a field without one.
fn write_fallback(uwnr: u16) -> (r: String)
    ensures
        r@ == fallback_label(uwnr),
{
    let mut out: Vec<char> = Vec::new();
    push_text(&mut out, "UW 0x");
    push_hex_byte(&mut out, (uwnr / 0x100) as u8);
    push_hex_byte(&mut out, (uwnr % 0x100) as u8);
    assert(out@ =~= fallback_label(uwnr));
    from_chars(out.as_slice())
}

/// The position of the first catalog label for an identifier.
fn find_label(labels: &[EnvCondLabel], uwnr: u16) -> (r: Option<usize>)
    ensures
        label_for(labels@, uwnr) == (match r {
            Some(i) => Some(labels@[i as int]),
            None => None,
        }),
        r matches Some(i) ==> i < labels@.len(),
{
    let mut i: usize = 0;
    assert(labels@.skip(0) =~= labels@);
    while i < labels.len()
        invariant
            i <= labels.len(),
            label_for(labels@, uwnr) == label_for(labels@.skip(i as int), uwnr),
        decreases labels.len() - i,
    {
        assert(labels@.skip(i as int)[0] == labels@[i as int]);
        if labels[i].uwnr == uwnr as u32 {
            return Some(i);
        }
        assert(labels@.skip(i as int).skip(1) =~= labels@.skip(i + 1));
        i = i + 1;
    }
    None
}

impl EnvCondDef {
    /// The raw number of a field and whether it is available.
    fn decode_value(&self, data: &[u8]) -> (r: (Option<RawNumber>, bool))
        ensures
            r.0 == number_of(self@, data@),
            r.1 == is_available(self@, data@),
    {
        match self.repr {
            Repr::Unsigned => {
                let n: u64 = read_low_64(data);
                let available = match self.sentinel {
                    Some(sentinel) => sentinel != n,
                    None => true,
                };
                if available {
                    (Some(RawNumber::Unsigned(n)), true)
                } else {
                    (None, false)
                }
            },
            Repr::Float => {
                if data.len() == 4 {
                    (
                        Some(RawNumber::FloatBits(read_be32(data[0], data[1], data[2], data[3]))),
                        true,
                    )
                } else {
                    (None, true)
                }
            },
        }
    }
}

/// Build one [`SnapshotField`] from a definition, its raw bytes, and the catalog's labels.
fn build_field(uwnr: u16, def: &EnvCondDef, data: &[u8], labels: &[EnvCondLabel]) -> (r:
    SnapshotField)
    ensures
        r@ == field_of(def@, labels@, uwnr, data@),
{
    let found = find_label(labels, uwnr);
    let title: Option<String> = match found {
        Some(i) => prefer(&labels[i].title_en, &labels[i].title_de),
        None => None,
    };
    let label = match title {
        Some(t) => t,
        None => match non_placeholder(def.text_de.as_str()) {
            Some(t) => t,
            None => write_fallback(uwnr),
        },
    };
    let catalog_unit: Option<String> = match found {
        Some(i) => match &labels[i].unit {
            Some(u) => clean_unit(u.as_str()),
            None => None,
        },
        None => None,
    };
    let unit = match catalog_unit {
        Some(u) => Some(u),
        None => clean_unit(def.unit_sgbd.as_str()),
    };
    let (number, available) = def.decode_value(data);
    SnapshotField {
        uwnr,
        label,
        number,
        mul: copy_factor(&def.mul),
        div: copy_factor(&def.div),
        add: copy_factor(&def.add),
        unit,
        available,
        raw: copy_bytes(data),
    }
}

impl SnapshotDefs {
    /// Put the definitions of the table of a name over these.
    fn read_table(&mut self, tables: &[Table], name: &str)
        ensures
            final(self)@ == with_table(
                old(self)@,
                crate::sgbd::prg::tables_view(tables@),
                name@,
            ),
    {
        let table = match find_table(tables, name) {
            Some(table) => table,
            None => {
                return;
            },
        };
        let cols = match EnvColumns::resolve(table.columns.as_slice()) {
            Some(cols) => cols,
            None => {
                return;
            },
        };
        let ghost start = self@;
        let ghost rows = table@.rows;
        let mut i: usize = 0;
        assert(with_rows(start, cols@, rows.take(0)) == start);
        while i < table.rows.len()
            invariant
                i <= table.rows.len(),
                rows == table@.rows,
                self@ == with_rows(start, cols@, rows.take(i as int)),
            decreases table.rows.len() - i,
        {
            proof {
                assert(rows[i as int] == crate::sgbd::prg::row_view(table.rows@[i as int]@));
                assert(rows.take(i + 1).drop_last() =~= rows.take(i as int));
            }
            let ghost before = self@;
            if let Some(def) = parse_env_row(&cols, table.rows[i].as_slice()) {
                let uwnr: u16 = def.uwnr;
                let ghost view = def@;
                self.by_id.insert(uwnr, def);
                assert(self@ =~= before.insert(uwnr, view));
            }
            i = i + 1;
        }
        assert(rows.take(i as int) =~= rows);
    }

    /// Build the definitions from a parsed container.
    ///
    /// The standard identifiers override the measurement conditions. Empty when neither table is
    /// present.
    pub fn from_prg(prg: &Prg) -> (r: SnapshotDefs)
        ensures
            r@ == env_defs(prg@),
    {
        SnapshotDefs::from_tables(prg.tables())
    }

    /// Build the definitions from a container's tables.
    pub fn from_tables(tables: &[Table]) -> (r: SnapshotDefs)
        ensures
            r@ == env_defs(crate::sgbd::prg::tables_view(tables@)),
    {
        let mut defs = SnapshotDefs::default();
        defs.read_table(tables, "FUMWELTTEXTE");
        defs.read_table(tables, "DTCSNAPSHOTIDENTIFIER");
        defs
    }

    /// Whether no definitions were found (a snapshot region will stay raw).
    pub fn is_empty(&self) -> (r: bool)
        ensures
            r == (self@.dom().len() == 0),
    {
        self.len() == 0
    }

    /// The number of definitions.
    pub fn len(&self) -> (r: usize)
        ensures
            r == self@.dom().len(),
    {
        assert(self@.dom() =~= self.by_id@.dom());
        self.by_id.len()
    }

    /// Decode a snapshot record region into labeled fields.
    ///
    /// `labels` are the catalog's labels for the region's identifiers. The walk *stops* at the
    /// first identifier it cannot size and gives the remainder as the undecoded tail.
    pub fn decode(&self, region: &DtcRecordRegion, labels: &[EnvCondLabel]) -> (r: DecodedSnapshot)
        ensures
            fields_view(r.fields@) == fields_in(self@, labels@, region.body@, 0),
            opt_bytes(r.undecoded_tail) == reported_tail(tail_in(self@, region.body@, 0)),
    {
        let body = region.body.as_slice();
        let ghost defs = self@;
        let ghost whole = fields_in(defs, labels@, body@, 0);
        let mut fields: Vec<SnapshotField> = Vec::new();
        let mut pos: usize = 0;
        let mut left: u8 = 0;
        let mut going = true;
        assert(body@.skip(0) =~= body@);
        assert(fields_view(fields@) + whole =~= whole);
        while going
            invariant
                pos <= body.len(),
                body@ == region.body@,
                defs == self@,
                whole == fields_in(defs, labels@, body@, 0),
                fields_view(fields@) + fields_in(defs, labels@, body@.skip(pos as int), left as nat)
                    == whole,
                tail_in(defs, body@.skip(pos as int), left as nat) == tail_in(defs, body@, 0),
                !going ==> fields_in(
                    defs,
                    labels@,
                    body@.skip(pos as int),
                    left as nat,
                ).len() == 0 && tail_in(defs, body@.skip(pos as int), left as nat) == body@.skip(
                    pos as int,
                ),
            decreases
                    body.len() - pos + (if going {
                        1int
                    } else {
                        0
                    }),
        {
            let ghost s = body@.skip(pos as int);
            if left == 0 {
                if body.len() - pos < 2 {
                    going = false;
                } else {
                    assert(s.skip(2) =~= body@.skip(pos + 2));
                    left = body[pos + 1];
                    pos = pos + 2;
                }
            } else if body.len() - pos < 2 {
                going = false;
            } else {
                let uwnr: u16 = read_be16(body[pos], body[pos + 1]);
                let found = self.by_id.get(&uwnr);
                match found {
                    Some(def) => {
                        if body.len() - pos - 2 < def.width {
                            going = false;
                        } else {
                            let end: usize = pos + 2 + def.width;
                            let data = vstd::slice::slice_subrange(body, pos + 2, end);
                            let ghost before = fields_view(fields@);
                            let field = build_field(uwnr, def, data, labels);
                            let ghost view = field@;
                            fields.push(field);
                            proof {
                                let step = 2 + def.width as int;
                                assert(defs[uwnr] == def@);
                                assert(can_size(defs, s));
                                assert(s.subrange(2, step) =~= data@);
                                assert(s.skip(step) =~= body@.skip(end as int));
                                let rest = fields_in(
                                    defs,
                                    labels@,
                                    s.skip(step),
                                    (left - 1) as nat,
                                );
                                assert(fields_view(fields@) =~= before.push(view));
                                assert(before + (seq![view] + rest) =~= fields_view(fields@) + rest);
                            }
                            pos = end;
                            left = left - 1;
                        }
                    },
                    None => {
                        going = false;
                    },
                }
            }
        }
        proof {
            let rest = fields_in(defs, labels@, body@.skip(pos as int), left as nat);
            assert(rest =~= Seq::<FieldView>::empty());
            assert(fields_view(fields@) + rest =~= fields_view(fields@));
        }
        let undecoded_tail = if pos < body.len() {
            let tail = copy_range(body, pos, body.len());
            assert(tail@ =~= body@.skip(pos as int));
            Some(tail)
        } else {
            None
        };
        DecodedSnapshot { fields, undecoded_tail }
    }
}

// ---------------------------------------------------------------------------
// Extended data
// ---------------------------------------------------------------------------

/// One decoded extended-data record: number, label, value.
#[derive(Debug, Clone, PartialEq, Eq)]
pub struct ExtDataField {
    /// The record number (e.g. `0x02` is the frequency counter).
    pub record: u8,
    /// The record's name (e.g. `HFK`).
    pub label: String,
    /// The record's value as a big-endian integer, or `None` for a zero-length record.
    pub value: Option<i64>,
    /// The raw record bytes.
    pub raw: Vec<u8>,
}

/// What an [`ExtDataField`] holds.
#[verifier::ext_equal]
pub struct ExtDataView {
    pub record: u8,
    pub label: Seq<char>,
    pub value: Option<i64>,
    pub raw: Seq<u8>,
}

impl View for ExtDataField {
    type V = ExtDataView;

    open spec fn view(&self) -> ExtDataView {
        ExtDataView {
            record: self.record,
            label: self.label@,
            value: self.value,
            raw: self.raw@,
        }
    }
}

/// The views of extended-data records.
pub open spec fn ext_view(v: Seq<ExtDataField>) -> Seq<ExtDataView> {
    Seq::new(v.len(), |i: int| v[i]@)
}

/// The result of decoding an extended-data region.
#[derive(Debug, Clone, PartialEq, Eq)]
pub struct DecodedExtData {
    /// The decoded records, in wire order.
    pub records: Vec<ExtDataField>,
    /// Bytes the walk could not decode (unknown record number or a short region).
    pub undecoded_tail: Option<Vec<u8>>,
}

/// The record definition in a row: number, name and byte length.
pub open spec fn ext_in(wert: int, text: int, anz: int, row: Seq<Seq<char>>) -> Option<
    (u8, (Seq<char>, nat)),
> {
    match (
        crate::text::hex_cell_value(
            crate::semantic::measurement::cell_or_empty(row, wert),
            0xFF,
        ),
        crate::text::unsigned_value(
            crate::text::trimmed(crate::semantic::measurement::cell_or_empty(row, anz)),
            10,
            usize::MAX as int,
        ),
    ) {
        (Some(record), Some(len)) => Some(
            (
                record as u8,
                (crate::semantic::measurement::cell_or_empty(row, text), len as nat),
            ),
        ),
        _ => None,
    }
}

/// The record definitions of rows; a later row replaces an earlier one.
pub open spec fn ext_of_rows(wert: int, text: int, anz: int, rows: Seq<Seq<Seq<char>>>) -> Map<
    u8,
    (Seq<char>, nat),
>
    decreases rows.len(),
{
    if rows.len() == 0 {
        Map::<u8, (Seq<char>, nat)>::empty()
    } else {
        let before = ext_of_rows(wert, text, anz, rows.drop_last());
        match ext_in(wert, text, anz, rows.last()) {
            Some((record, def)) => before.insert(record, def),
            None => before,
        }
    }
}

/// The record definitions of an ECU.
pub open spec fn ext_defs(tables: Seq<crate::sgbd::prg::TableView>) -> Map<u8, (Seq<char>, nat)> {
    match table_named(tables, "DTCEXTENDEDDATARECORDNUMBER"@) {
        Some(table) => match (
            crate::text::position(table.columns, "WERT"@),
            crate::text::position(table.columns, "TEXT"@),
            crate::text::position(table.columns, "ANZ_BYTE"@),
        ) {
            (Some(wert), Some(text), Some(anz)) => ext_of_rows(wert, text, anz, table.rows),
            _ => Map::<u8, (Seq<char>, nat)>::empty(),
        },
        None => Map::<u8, (Seq<char>, nat)>::empty(),
    }
}

/// The record of a number, from its name and bytes.
pub open spec fn ext_field(record: u8, label: Seq<char>, data: Seq<u8>) -> ExtDataView {
    ExtDataView {
        record,
        label,
        value: if data.len() == 0 {
            None
        } else {
            Some(signed_64(data) as i64)
        },
        raw: data,
    }
}

/// Whether the next record of a region can be sized.
pub open spec fn can_read(defs: Map<u8, (Seq<char>, nat)>, s: Seq<u8>) -> bool {
    s.len() > 0 && defs.contains_key(s[0]) && s.len() >= 1 + defs[s[0]].1
}

/// The records of a region: each a number, and as many bytes as its definition says.
pub open spec fn records_in(defs: Map<u8, (Seq<char>, nat)>, s: Seq<u8>) -> Seq<ExtDataView>
    decreases s.len(),
{
    if can_read(defs, s) {
        let end = 1 + defs[s[0]].1 as int;
        seq![ext_field(s[0], defs[s[0]].0, s.subrange(1, end))] + records_in(defs, s.skip(end))
    } else {
        Seq::<ExtDataView>::empty()
    }
}

/// What the walk leaves of a region.
pub open spec fn records_tail(defs: Map<u8, (Seq<char>, nat)>, s: Seq<u8>) -> Seq<u8>
    decreases s.len(),
{
    if can_read(defs, s) {
        records_tail(defs, s.skip(1 + defs[s[0]].1 as int))
    } else {
        s
    }
}

/// A region that starts with a defined record gives that record back, and then decodes the rest;
/// so a region of defined records is decoded whole, with no tail.
pub proof fn law_a_defined_record_is_decoded_whole(
    defs: Map<u8, (Seq<char>, nat)>,
    record: u8,
    data: Seq<u8>,
    rest: Seq<u8>,
)
    requires
        defs.contains_key(record),
        data.len() == defs[record].1,
    ensures
        records_in(defs, seq![record] + data + rest) == seq![
            ext_field(record, defs[record].0, data),
        ] + records_in(defs, rest),
        records_tail(defs, seq![record] + data + rest) == records_tail(defs, rest),
{
    let s = seq![record] + data + rest;
    let end = 1 + data.len() as int;
    assert(s.subrange(1, end) =~= data);
    assert(s.skip(end) =~= rest);
}

/// The bytes of decoded records: each its number and its raw bytes.
pub open spec fn record_bytes(records: Seq<ExtDataView>) -> Seq<u8>
    decreases records.len(),
{
    if records.len() == 0 {
        Seq::<u8>::empty()
    } else {
        seq![records[0].record] + records[0].raw + record_bytes(records.skip(1))
    }
}

/// Nothing of a region is lost or changed: the decoded records and the tail, written one behind
/// the other, are the region.
pub proof fn law_the_records_and_the_tail_are_the_region(
    defs: Map<u8, (Seq<char>, nat)>,
    s: Seq<u8>,
)
    ensures
        record_bytes(records_in(defs, s)) + records_tail(defs, s) == s,
    decreases s.len(),
{
    let records = records_in(defs, s);
    let tail = records_tail(defs, s);
    if can_read(defs, s) {
        let end = 1 + defs[s[0]].1 as int;
        let rest = s.skip(end);
        law_the_records_and_the_tail_are_the_region(defs, rest);
        assert(records.skip(1) =~= records_in(defs, rest));
        assert(seq![s[0]] + s.subrange(1, end) + rest =~= s);
        assert(record_bytes(records) + tail =~= seq![s[0]] + s.subrange(1, end) + (record_bytes(
            records.skip(1),
        ) + tail));
    } else {
        assert(record_bytes(records) + tail =~= s);
    }
}

/// Record number to name and byte length, from an ECU's table.
#[derive(Debug, Clone)]
pub struct ExtDataDefs {
    by_record: HashMap<u8, (String, usize)>,
}

/// The views of record definitions.
pub open spec fn ext_defs_view(defs: Map<u8, (String, usize)>) -> Map<u8, (Seq<char>, nat)> {
    Map::new(|k: u8| defs.contains_key(k), |k: u8| (defs[k].0@, defs[k].1 as nat))
}

impl View for ExtDataDefs {
    type V = Map<u8, (Seq<char>, nat)>;

    closed spec fn view(&self) -> Map<u8, (Seq<char>, nat)> {
        ext_defs_view(self.by_record@)
    }
}

impl Default for ExtDataDefs {
    /// No definitions.
    fn default() -> (r: ExtDataDefs)
        ensures
            r@ == Map::<u8, (Seq<char>, nat)>::empty(),
    {
        let r = ExtDataDefs { by_record: HashMap::new() };
        assert(r@ =~= Map::<u8, (Seq<char>, nat)>::empty());
        r
    }
}

/// The byte in a hexadecimal cell (e.g. `0x02`).
pub fn parse_u8(s: &str) -> (r: Option<u8>)
    ensures
        crate::text::hex_cell_value(s@, 0xFF) == (match r {
            Some(v) => Some(v as int),
            None => None,
        }),
{
    match parse_hex_cell(s, 0xFF) {
        Some(v) => Some(v as u8),
        None => None,
    }
}

impl ExtDataDefs {
    /// Build the definitions from a parsed container.
    pub fn from_prg(prg: &Prg) -> (r: ExtDataDefs)
        ensures
            r@ == ext_defs(prg@),
    {
        ExtDataDefs::from_tables(prg.tables())
    }

    /// Build the definitions from a container's tables.
    pub fn from_tables(tables: &[Table]) -> (r: ExtDataDefs)
        ensures
            r@ == ext_defs(crate::sgbd::prg::tables_view(tables@)),
    {
        let mut defs = ExtDataDefs::default();
        let table = match find_table(tables, "DTCEXTENDEDDATARECORDNUMBER") {
            Some(table) => table,
            None => {
                return defs;
            },
        };
        let columns = table.columns.as_slice();
        let (wert, text, anz) = match (
            position_of(columns, "WERT"),
            position_of(columns, "TEXT"),
            position_of(columns, "ANZ_BYTE"),
        ) {
            (Some(wert), Some(text), Some(anz)) => (wert, text, anz),
            _ => {
                return defs;
            },
        };
        let ghost rows = table@.rows;
        let mut i: usize = 0;
        assert(ext_of_rows(wert as int, text as int, anz as int, rows.take(0)) == defs@);
        while i < table.rows.len()
            invariant
                i <= table.rows.len(),
                rows == table@.rows,
                defs@ == ext_of_rows(wert as int, text as int, anz as int, rows.take(i as int)),
            decreases table.rows.len() - i,
        {
            let row = table.rows[i].as_slice();
            proof {
                assert(rows[i as int] == crate::sgbd::prg::row_view(row@));
                assert(rows.take(i + 1).drop_last() =~= rows.take(i as int));
            }
            let record = parse_u8(cell_text(row, wert).as_str());
            let length = to_chars(cell_text(row, anz).as_str());
            let len = parse_unsigned(trim(length.as_slice()), 10, usize::MAX as u64);
            let ghost before = defs@;
            match (record, len) {
                (Some(record), Some(len)) => {
                    let name = cell_text(row, text);
                    let ghost view = (name@, len as nat);
                    defs.by_record.insert(record, (name, len as usize));
                    assert(defs@ =~= before.insert(record, view));
                },
                _ => {},
            }
            i = i + 1;
        }
        assert(rows.take(i as int) =~= rows);
        defs
    }

    /// Whether no extended-data definitions were found.
    pub fn is_empty(&self) -> (r: bool)
        ensures
            r == (self@.dom().len() == 0),
    {
        assert(self@.dom() =~= self.by_record@.dom());
        self.by_record.len() == 0
    }

    /// Decode an extended-data region into records.
    ///
    /// Stops at an unknown record number (unknown length) or a short region and gives the
    /// remainder as the undecoded tail.
    pub fn decode(&self, region: &DtcRecordRegion) -> (r: DecodedExtData)
        ensures
            ext_view(r.records@) == records_in(self@, region.body@),
            opt_bytes(r.undecoded_tail) == reported_tail(records_tail(self@, region.body@)),
    {
        let body = region.body.as_slice();
        let ghost defs = self@;
        let ghost whole = records_in(defs, body@);
        let mut records: Vec<ExtDataField> = Vec::new();
        let mut pos: usize = 0;
        let mut going = true;
        assert(body@.skip(0) =~= body@);
        assert(ext_view(records@) + whole =~= whole);
        while going
            invariant
                pos <= body.len(),
                body@ == region.body@,
                defs == self@,
                whole == records_in(defs, body@),
                ext_view(records@) + records_in(defs, body@.skip(pos as int)) == whole,
                records_tail(defs, body@.skip(pos as int)) == records_tail(defs, body@),
                !going ==> !can_read(defs, body@.skip(pos as int)),
            decreases
                    body.len() - pos + (if going {
                        1int
                    } else {
                        0
                    }),
        {
            let ghost s = body@.skip(pos as int);
            if pos >= body.len() {
                going = false;
            } else {
                let record: u8 = body[pos];
                match self.by_record.get(&record) {
                    Some(def) => {
                        let len: usize = def.1;
                        if body.len() - pos - 1 < len {
                            going = false;
                        } else {
                            let end: usize = pos + 1 + len;
                            let data = vstd::slice::slice_subrange(body, pos + 1, end);
                            let value: Option<i64> = if data.len() == 0 {
                                None
                            } else {
                                Some(read_signed_64(data))
                            };
                            let ghost before = ext_view(records@);
                            let field = ExtDataField {
                                record,
                                label: def.0.clone(),
                                value,
                                raw: copy_bytes(data),
                            };
                            let ghost view = field@;
                            records.push(field);
                            proof {
                                let step = 1 + len as int;
                                assert(defs[record] == (def.0@, len as nat));
                                assert(can_read(defs, s));
                                assert(s.subrange(1, step) =~= data@);
                                assert(s.skip(step) =~= body@.skip(end as int));
                                let rest = records_in(defs, s.skip(step));
                                assert(view =~= ext_field(record, def.0@, data@));
                                assert(ext_view(records@) =~= before.push(view));
                                assert(before + (seq![view] + rest) =~= ext_view(records@) + rest);
                            }
                            pos = end;
                        }
                    },
                    None => {
                        going = false;
                    },
                }
            }
        }
        proof {
            let rest = records_in(defs, body@.skip(pos as int));
            assert(rest =~= Seq::<ExtDataView>::empty());
            assert(ext_view(records@) + rest =~= ext_view(records@));
        }
        let undecoded_tail = if pos < body.len() {
            let tail = copy_range(body, pos, body.len());
            assert(tail@ =~= body@.skip(pos as int));
            Some(tail)
        } else {
            None
        };
        DecodedExtData { records, undecoded_tail }
    }
}

/// Both freeze-frame definition sets for one ECU.
#[derive(Debug, Clone)]
pub struct FreezeFrameDefs {
    /// The snapshot field definitions.
    pub snapshot: SnapshotDefs,
    /// The extended-data record definitions.
    pub extended: ExtDataDefs,
}

impl Default for FreezeFrameDefs {
    /// No definitions.
    fn default() -> (r: FreezeFrameDefs)
        ensures
            r.snapshot@ == Map::<u16, EnvCondView>::empty(),
            r.extended@ == Map::<u8, (Seq<char>, nat)>::empty(),
    {
        FreezeFrameDefs { snapshot: SnapshotDefs::default(), extended: ExtDataDefs::default() }
    }
}

impl FreezeFrameDefs {
    /// Build both definition sets from a parsed container.
    pub fn from_prg(prg: &Prg) -> (r: FreezeFrameDefs)
        ensures
            r.snapshot@ == env_defs(prg@),
            r.extended@ == ext_defs(prg@),
    {
        FreezeFrameDefs {
            snapshot: SnapshotDefs::from_prg(prg),
            extended: ExtDataDefs::from_prg(prg),
        }
    }

    /// Whether neither snapshot nor extended-data definitions were found.
    pub fn is_empty(&self) -> (r: bool)
        ensures
            r == (self.snapshot@.dom().len() == 0 && self.extended@.dom().len() == 0),
    {
        self.snapshot.is_empty() && self.extended.is_empty()
    }
}

// ---------------------------------------------------------------------------
// What the decoding amounts to
// ---------------------------------------------------------------------------

proof fn lemma_type_names()
    ensures
        "unsigned char"@.len() == 13,
        "u char"@.len() == 6,
        "unsigned int"@.len() == 12,
        "u int"@.len() == 5,
        "unsigned long"@.len() == 13,
        "u long"@.len() == 6,
        "motorola float"@.len() == 14,
        "unsigned char"@ != "unsigned long"@,
        "u char"@ != "u long"@,
        !crate::text::has_hex_prefix("unsigned char"@),
        !crate::text::has_hex_prefix("u char"@),
        !crate::text::has_hex_prefix("unsigned int"@),
        !crate::text::has_hex_prefix("u int"@),
        !crate::text::has_hex_prefix("unsigned long"@),
        !crate::text::has_hex_prefix("u long"@),
        !crate::text::has_hex_prefix("motorola float"@),
{
    reveal_strlit("unsigned char");
    reveal_strlit("u char");
    reveal_strlit("unsigned int");
    reveal_strlit("u int");
    reveal_strlit("unsigned long");
    reveal_strlit("u long");
    reveal_strlit("motorola float");
    assert("unsigned char"@[9] != "unsigned long"@[9]);
    assert("u char"@[2] != "u long"@[2]);
}

/// A type name fixes a field's width: a `char` takes one byte, an `int` two, a `long` four and a
/// float four, whatever white space stands round the name; and there are no other names.
pub proof fn law_a_type_name_fixes_the_width(s: Seq<char>)
    ensures
        ({
            let t = crate::text::trimmed(s);
            &&& (t == "unsigned char"@ || t == "u char"@ ==> type_of(s) == Some(
                (1nat, Repr::Unsigned, None::<u64>),
            ))
            &&& (t == "unsigned int"@ || t == "u int"@ ==> type_of(s) == Some(
                (2nat, Repr::Unsigned, None::<u64>),
            ))
            &&& (t == "unsigned long"@ || t == "u long"@ ==> type_of(s) == Some(
                (4nat, Repr::Unsigned, None::<u64>),
            ))
            &&& (t == "motorola float"@ ==> type_of(s) == Some((4nat, Repr::Float, None::<u64>)))
            &&& (type_of(s) is Some && !crate::text::has_hex_prefix(t) ==> t == "unsigned char"@
                || t == "u char"@ || t == "unsigned int"@ || t == "u int"@ || t
                == "unsigned long"@ || t == "u long"@ || t == "motorola float"@)
        }),
{
    lemma_type_names();
}

/// A field of a named type is as wide as a measurement of that type, and is read as the same
/// number.
pub proof fn law_fields_and_measurements_agree_on_types(s: Seq<char>, raw: Seq<u8>)
    requires
        crate::semantic::measurement::datatype_named(s) is Some,
    ensures
        ({
            let datatype = crate::semantic::measurement::datatype_named(s)->0;
            type_of(s) matches Some((width, repr, sentinel)) && width
                == crate::semantic::measurement::width_of(datatype) && forall|def: EnvCondView|
                def.repr == repr && def.sentinel == sentinel && raw.len() == width
                    ==> #[trigger] number_of(def, raw) == crate::semantic::measurement::number_in(
                    datatype,
                    raw,
                )
        }),
{
    lemma_type_names();
    let datatype = crate::semantic::measurement::datatype_named(s)->0;
    if raw.len() == 1 || raw.len() == 2 || raw.len() == 4 {
        lemma_low_64_of(raw);
    }
}

proof fn lemma_low_64_of(raw: Seq<u8>)
    requires
        raw.len() <= 4,
    ensures
        raw.len() == 1 ==> low_64(raw) == raw[0],
        raw.len() == 2 ==> low_64(raw) == raw[0] * 0x100 + raw[1],
        raw.len() == 3 ==> low_64(raw) == raw[0] * 0x1_0000 + raw[1] * 0x100 + raw[2],
        raw.len() == 4 ==> low_64(raw) == raw[0] * 0x100_0000 + raw[1] * 0x1_0000 + raw[2] * 0x100
            + raw[3],
        low_64(raw) == crate::bytes::be_value(raw),
{
    reveal_with_fuel(crate::bytes::be_value, 5);
    if raw.len() >= 1 {
        let a = raw.drop_last();
        if raw.len() >= 2 {
            let b = a.drop_last();
            if raw.len() >= 3 {
                let c = b.drop_last();
                assert(c.len() == raw.len() - 3);
            }
        }
    }
}

/// The number of an unsigned field is the big-endian number of its bytes.
pub proof fn law_an_unsigned_field_is_its_big_endian_number(
    def: EnvCondView,
    labels: Seq<EnvCondLabel>,
    uwnr: u16,
    raw: Seq<u8>,
)
    requires
        def.repr == Repr::Unsigned,
        def.sentinel is None,
        0 < raw.len() <= 4,
    ensures
        ({
            let field = field_of(def, labels, uwnr, raw);
            &&& field.uwnr == uwnr
            &&& field.raw == raw
            &&& field.available
            &&& field.number == Some(
                RawNumber::Unsigned(
                    (if raw.len() == 1 {
                        raw[0] as int
                    } else if raw.len() == 2 {
                        raw[0] * 0x100 + raw[1]
                    } else if raw.len() == 3 {
                        raw[0] * 0x1_0000 + raw[1] * 0x100 + raw[2]
                    } else {
                        raw[0] * 0x100_0000 + raw[1] * 0x1_0000 + raw[2] * 0x100 + raw[3]
                    }) as u64,
                ),
            )
            &&& field.mul == def.mul && field.div == def.div && field.add == def.add
        }),
{
    lemma_low_64_of(raw);
}

/// A float field is the bits of its four bytes; it has no sentinel.
pub proof fn law_a_float_field_is_its_bits(
    def: EnvCondView,
    labels: Seq<EnvCondLabel>,
    uwnr: u16,
    raw: Seq<u8>,
)
    requires
        def.repr == Repr::Float,
        raw.len() == 4,
    ensures
        field_of(def, labels, uwnr, raw).available,
        field_of(def, labels, uwnr, raw).number == Some(
            RawNumber::FloatBits(
                (raw[0] * 0x100_0000 + raw[1] * 0x1_0000 + raw[2] * 0x100 + raw[3]) as u32,
            ),
        ),
{
}

/// The sentinel alone makes a field unavailable: a field whose bytes write its sentinel has no
/// number, and every other one has.
pub proof fn law_only_the_sentinel_is_unavailable(
    def: EnvCondView,
    labels: Seq<EnvCondLabel>,
    uwnr: u16,
    raw: Seq<u8>,
    sentinel: u64,
)
    requires
        def.repr == Repr::Unsigned,
        def.sentinel == Some(sentinel),
        raw.len() <= 8,
    ensures
        ({
            let field = field_of(def, labels, uwnr, raw);
            &&& (field.available <==> crate::bytes::be_value(raw) != sentinel)
            &&& (field.number is Some <==> field.available)
            &&& (field.number matches Some(n) ==> n == RawNumber::Unsigned(
                crate::bytes::be_value(raw) as u64,
            ))
        }),
{
    lemma_be_value_bound(raw);
}

proof fn lemma_be_value_bound(raw: Seq<u8>)
    requires
        raw.len() <= 8,
    ensures
        crate::bytes::be_value(raw) < two_to_64(),
        low_64(raw) == crate::bytes::be_value(raw),
        raw.len() < 8 ==> crate::bytes::be_value(raw) < 0x100_0000_0000_0000,
{
    lemma_be_value_in(raw);
    assert(crate::bytes::be_value(raw) < two_to_64());
    assert(low_64(raw) == crate::bytes::be_value(raw)) by {
        vstd::arithmetic::div_mod::lemma_small_mod(
            crate::bytes::be_value(raw),
            two_to_64() as nat,
        );
    }
}

/// The number of values that `n` bytes can take, up to eight bytes.
spec fn byte_range(n: nat) -> int {
    if n == 0 {
        1
    } else if n == 1 {
        0x100
    } else if n == 2 {
        0x1_0000
    } else if n == 3 {
        0x100_0000
    } else if n == 4 {
        0x1_0000_0000
    } else if n == 5 {
        0x100_0000_0000
    } else if n == 6 {
        0x1_0000_0000_0000
    } else if n == 7 {
        0x100_0000_0000_0000
    } else {
        0x1_0000_0000_0000_0000
    }
}

proof fn lemma_be_value_in(raw: Seq<u8>)
    requires
        raw.len() <= 8,
    ensures
        crate::bytes::be_value(raw) < byte_range(raw.len()),
    decreases raw.len(),
{
    if raw.len() > 0 {
        lemma_be_value_in(raw.drop_last());
    }
}

/// A mask fixes the width and the sentinel: it has two digits per byte, and its number, which is
/// that of the bytes all of whose bits it has, means that the field is not available.
#[verifier::rlimit(40)]
pub proof fn law_a_mask_fixes_width_and_sentinel(
    front: Seq<char>,
    mask: Seq<u8>,
    back: Seq<char>,
    x: char,
)
    requires
        crate::text::blank(front),
        crate::text::blank(back),
        0 < mask.len() <= 8,
        x == 'x' || x == 'X',
    ensures
        type_of(front + (seq!['0', x] + crate::text::hex_text(mask)) + back) == Some(
            (mask.len(), Repr::Unsigned, Some(crate::bytes::be_value(mask) as u64)),
        ),
{
    let marked = seq!['0', x] + crate::text::hex_text(mask);
    lemma_marked_ends(mask, x);
    crate::text::law_trimming_takes_the_white_ends_only(front, marked, back);
    lemma_mask(marked, mask, x);
    lemma_masked_type(
        front + marked + back,
        crate::text::hex_text(mask),
        mask.len(),
        crate::bytes::be_value(mask) as int,
    );
}

proof fn lemma_marked_ends(mask: Seq<u8>, x: char)
    requires
        0 < mask.len(),
    ensures
        ({
            let marked = seq!['0', x] + crate::text::hex_text(mask);
            &&& marked.len() > 0
            &&& !crate::text::is_white(marked[0])
            &&& !crate::text::is_white(marked.last())
        }),
{
    let digits = crate::text::hex_text(mask);
    let last = mask.last();
    assert(digits.last() == crate::text::hex_char(last as int % 16));
    crate::text::law_printable_ascii_is_not_white(digits.last());
}

#[verifier::rlimit(40)]
proof fn lemma_mask(t: Seq<char>, mask: Seq<u8>, x: char)
    requires
        0 < mask.len() <= 8,
        x == 'x' || x == 'X',
        t == seq!['0', x] + crate::text::hex_text(mask),
    ensures
        crate::text::has_hex_prefix(t),
        t.skip(2) == crate::text::hex_text(mask),
        crate::text::hex_text(mask).len() == 2 * mask.len(),
        crate::text::unsigned_value(crate::text::hex_text(mask), 16, u64::MAX as int) == Some(
            crate::bytes::be_value(mask) as int,
        ),
{
    let digits = crate::text::hex_text(mask);
    assert(crate::bytes::be_value(mask) <= u64::MAX) by {
        lemma_be_value_bound(mask);
    }
    crate::text::law_hex_digits_read_back(mask, u64::MAX as int);
    assert(t[0] == '0' && t[1] == x);
    assert(t.skip(2) =~= digits);
}

#[verifier::rlimit(40)]
proof fn lemma_masked_type(s: Seq<char>, digits: Seq<char>, width: nat, value: int)
    requires
        crate::text::has_hex_prefix(crate::text::trimmed(s)),
        crate::text::trimmed(s).skip(2) == digits,
        digits.len() == 2 * width,
        0 < width <= 8,
        crate::text::unsigned_value(digits, 16, u64::MAX as int) == Some(value),
    ensures
        type_of(s) == Some((width, Repr::Unsigned, Some(value as u64))),
{
}

/// A mask of an odd number of digits, of none or of more than sixteen sizes nothing.
pub proof fn law_a_mask_is_whole_bytes(s: Seq<char>)
    requires
        crate::text::has_hex_prefix(crate::text::trimmed(s)),
    ensures
        type_of(s) matches Some((width, repr, sentinel)) ==> repr == Repr::Unsigned && sentinel
            is Some && 1 <= width <= 8 && crate::text::trimmed(s).len() == 2 + 2 * width,
{
}

/// A row defines a condition if and only if its identifier, type and factors can be read, and the
/// definition is what its cells say.
pub proof fn law_a_row_defines_what_its_cells_say(c: EnvColumnsView, row: Seq<Seq<char>>)
    requires
        0 <= c.uwnr < row.len(),
        0 <= c.uwtext < row.len(),
        0 <= c.unit < row.len(),
        0 <= c.uwtyp < row.len(),
        0 <= c.mul < row.len(),
        0 <= c.div < row.len(),
        0 <= c.add < row.len(),
    ensures
        env_in(c, row) is Some <==> crate::text::hex_cell_value(row[c.uwnr], 0xFFFF) is Some
            && type_of(row[c.uwtyp]) is Some && crate::semantic::measurement::factor_in(row[c.mul])
            is Some && crate::semantic::measurement::factor_in(row[c.div]) is Some
            && crate::semantic::measurement::factor_in(row[c.add]) is Some,
        env_in(c, row) matches Some(def) ==> {
            &&& Some(def.uwnr as int) == crate::text::hex_cell_value(row[c.uwnr], 0xFFFF)
            &&& def.text_de == row[c.uwtext]
            &&& def.unit_sgbd == row[c.unit]
            &&& Some((def.width, def.repr, def.sentinel)) == type_of(row[c.uwtyp])
            &&& Some(def.mul) == crate::semantic::measurement::factor_in(row[c.mul])
            &&& Some(def.div) == crate::semantic::measurement::factor_in(row[c.div])
            &&& Some(def.add) == crate::semantic::measurement::factor_in(row[c.add])
        },
{
    crate::text::lemma_numbers_are_not_negative(
        crate::text::without_hex_prefix(crate::text::trimmed(row[c.uwnr])),
        16,
        0xFFFF,
    );
}

/// The columns of a table of conditions are found by their names; without one of them there are
/// none.
pub proof fn law_condition_columns_are_found_by_name(columns: Seq<Seq<char>>)
    ensures
        env_columns(columns) is Some <==> columns.contains("UWNR"@) && columns.contains("UWTEXT"@)
            && columns.contains("UW_EINH"@) && columns.contains("UWTYP"@) && columns.contains(
            "MUL"@,
        ) && columns.contains("DIV"@) && columns.contains("ADD"@),
        env_columns(columns) matches Some(c) ==> {
            &&& 0 <= c.uwnr < columns.len() && columns[c.uwnr] == "UWNR"@
            &&& 0 <= c.uwtext < columns.len() && columns[c.uwtext] == "UWTEXT"@
            &&& 0 <= c.unit < columns.len() && columns[c.unit] == "UW_EINH"@
            &&& 0 <= c.uwtyp < columns.len() && columns[c.uwtyp] == "UWTYP"@
            &&& 0 <= c.mul < columns.len() && columns[c.mul] == "MUL"@
            &&& 0 <= c.div < columns.len() && columns[c.div] == "DIV"@
            &&& 0 <= c.add < columns.len() && columns[c.add] == "ADD"@
        },
{
    crate::text::law_a_position_is_the_first_occurrence(columns, "UWNR"@);
    crate::text::law_a_position_is_the_first_occurrence(columns, "UWTEXT"@);
    crate::text::law_a_position_is_the_first_occurrence(columns, "UW_EINH"@);
    crate::text::law_a_position_is_the_first_occurrence(columns, "UWTYP"@);
    crate::text::law_a_position_is_the_first_occurrence(columns, "MUL"@);
    crate::text::law_a_position_is_the_first_occurrence(columns, "DIV"@);
    crate::text::law_a_position_is_the_first_occurrence(columns, "ADD"@);
}

/// Of the rows that define an identifier the last one counts; an identifier that no row defines
/// keeps the definition it had, or has none.
pub proof fn law_the_last_row_of_an_identifier_counts(
    defs: Map<u16, EnvCondView>,
    c: EnvColumnsView,
    rows: Seq<Seq<Seq<char>>>,
    uwnr: u16,
    k: int,
)
    requires
        -1 <= k < rows.len(),
        k >= 0 ==> (env_in(c, rows[k]) matches Some(def) && def.uwnr == uwnr),
        forall|j: int|
            k < j < rows.len() ==> !(env_in(c, #[trigger] rows[j]) matches Some(def) && def.uwnr
                == uwnr),
    ensures
        k >= 0 ==> with_rows(defs, c, rows).contains_key(uwnr) && Some(
            with_rows(defs, c, rows)[uwnr],
        ) == env_in(c, rows[k]),
        k < 0 ==> (with_rows(defs, c, rows).contains_key(uwnr) <==> defs.contains_key(uwnr)),
        k < 0 && defs.contains_key(uwnr) ==> with_rows(defs, c, rows)[uwnr] == defs[uwnr],
    decreases rows.len(),
{
    if rows.len() > 0 {
        let short = rows.drop_last();
        if k < short.len() {
            assert forall|j: int| k < j < short.len() implies !(env_in(
                c,
                #[trigger] short[j],
            ) matches Some(def) && def.uwnr == uwnr) by {
                assert(short[j] == rows[j]);
            }
            if k >= 0 {
                assert(short[k] == rows[k]);
            }
            law_the_last_row_of_an_identifier_counts(defs, c, short, uwnr, k);
            assert(!(env_in(c, rows[rows.len() - 1]) matches Some(def) && def.uwnr == uwnr));
        }
    }
}

/// The definitions of an ECU come from its two tables, found by name in either case: the standard
/// one where it defines the identifier, else the one of measurement conditions.
pub proof fn law_definitions_come_from_the_two_tables(
    tables: Seq<crate::sgbd::prg::TableView>,
    standard: crate::sgbd::prg::TableView,
    conditions: crate::sgbd::prg::TableView,
    c: EnvColumnsView,
    d: EnvColumnsView,
    uwnr: u16,
)
    requires
        table_named(tables, "DTCSNAPSHOTIDENTIFIER"@) == Some(standard),
        table_named(tables, "FUMWELTTEXTE"@) == Some(conditions),
        env_columns(standard.columns) == Some(c),
        env_columns(conditions.columns) == Some(d),
    ensures
        ({
            let none = Map::<u16, EnvCondView>::empty();
            let first = with_rows(none, d, conditions.rows);
            let over = with_rows(none, c, standard.rows);
            &&& (over.contains_key(uwnr) ==> env_defs(tables).contains_key(uwnr) && env_defs(
                tables,
            )[uwnr] == over[uwnr])
            &&& (!over.contains_key(uwnr) ==> (env_defs(tables).contains_key(uwnr)
                <==> first.contains_key(uwnr)))
            &&& (!over.contains_key(uwnr) && first.contains_key(uwnr) ==> env_defs(tables)[uwnr]
                == first[uwnr])
        }),
{
    let none = Map::<u16, EnvCondView>::empty();
    let first = with_rows(none, d, conditions.rows);
    lemma_rows_over(first, none, c, standard.rows, uwnr);
}

proof fn lemma_rows_over(
    a: Map<u16, EnvCondView>,
    b: Map<u16, EnvCondView>,
    c: EnvColumnsView,
    rows: Seq<Seq<Seq<char>>>,
    uwnr: u16,
)
    requires
        !b.contains_key(uwnr),
    ensures
        with_rows(b, c, rows).contains_key(uwnr) ==> with_rows(a, c, rows).contains_key(uwnr)
            && with_rows(a, c, rows)[uwnr] == with_rows(b, c, rows)[uwnr],
        !with_rows(b, c, rows).contains_key(uwnr) ==> (with_rows(a, c, rows).contains_key(uwnr)
            <==> a.contains_key(uwnr)) && (a.contains_key(uwnr) ==> with_rows(a, c, rows)[uwnr]
            == a[uwnr]),
    decreases rows.len(),
{
    if rows.len() > 0 {
        lemma_rows_over(a, b, c, rows.drop_last(), uwnr);
    }
}

/// A table is found by its name in either case, and of several the first.
pub proof fn law_the_first_table_of_a_name_is_found(
    tables: Seq<crate::sgbd::prg::TableView>,
    name: Seq<char>,
    k: int,
)
    requires
        0 <= k <= tables.len(),
        forall|j: int|
            0 <= j < k ==> !crate::text::same_ignoring_case((#[trigger] tables[j]).name, name),
        k < tables.len() ==> crate::text::same_ignoring_case(tables[k].name, name),
    ensures
        table_named(tables, name) == (if k < tables.len() {
            Some(tables[k])
        } else {
            None
        }),
    decreases tables.len(),
{
    if k > 0 {
        assert(!crate::text::same_ignoring_case(tables[0].name, name));
        assert forall|j: int| 0 <= j < k - 1 implies !crate::text::same_ignoring_case(
            (#[trigger] tables.skip(1)[j]).name,
            name,
        ) by {
            assert(tables.skip(1)[j] == tables[j + 1]);
        }
        law_the_first_table_of_a_name_is_found(tables.skip(1), name, k - 1);
    }
}

/// The label of a field is the catalog's English title, else its German one, else the ECU's own
/// text unless that is a placeholder, else the identifier in hexadecimal. `k` is the first label
/// of the catalog for the identifier, or the number of labels.
pub proof fn law_a_field_has_its_best_label(
    def: EnvCondView,
    labels: Seq<EnvCondLabel>,
    uwnr: u16,
    raw: Seq<u8>,
    k: int,
)
    requires
        0 <= k <= labels.len(),
        forall|j: int| 0 <= j < k ==> (#[trigger] labels[j]).uwnr != uwnr,
        k < labels.len() ==> labels[k].uwnr == uwnr,
    ensures
        ({
            let field = field_of(def, labels, uwnr, raw);
            let own = crate::text::trimmed(def.text_de);
            let placeholder = own.len() == 0 || own == "-"@;
            let entitled = k < labels.len() && (labels[k].title_en is Some || labels[k].title_de
                is Some);
            &&& (k < labels.len() ==> (labels[k].title_en matches Some(t) ==> field.label == t@))
            &&& (k < labels.len() && labels[k].title_en is None ==> (labels[k].title_de matches
                Some(t) ==> field.label == t@))
            &&& (!entitled && !placeholder ==> field.label == own)
            &&& (!entitled && placeholder ==> field.label == "UW 0x"@ + crate::text::hex_text(
                seq![(uwnr / 0x100) as u8, (uwnr % 0x100) as u8],
            ))
        }),
{
    lemma_label_for(labels, uwnr, k);
    let bytes = seq![(uwnr / 0x100) as u8, (uwnr % 0x100) as u8];
    reveal_with_fuel(crate::text::hex_text, 3);
    assert(bytes.drop_last() =~= seq![(uwnr / 0x100) as u8]);
    assert(bytes.drop_last().drop_last() =~= Seq::<u8>::empty());
    assert(fallback_label(uwnr) =~= "UW 0x"@ + crate::text::hex_text(bytes));
}

/// The unit of a field is the catalog's, else the ECU's own; a dash, a range hint and nothing are
/// no unit.
pub proof fn law_a_field_has_its_best_unit(
    def: EnvCondView,
    labels: Seq<EnvCondLabel>,
    uwnr: u16,
    raw: Seq<u8>,
    k: int,
)
    requires
        0 <= k <= labels.len(),
        forall|j: int| 0 <= j < k ==> (#[trigger] labels[j]).uwnr != uwnr,
        k < labels.len() ==> labels[k].uwnr == uwnr,
    ensures
        ({
            let field = field_of(def, labels, uwnr, raw);
            let none = |t: Seq<char>| t.len() == 0 || t == "-"@ || t == "0-n"@;
            let own = crate::text::trimmed(def.unit_sgbd);
            let known = k < labels.len() && (labels[k].unit matches Some(u) && !none(
                crate::text::trimmed(u@),
            ));
            &&& (known ==> field.unit == Some(crate::text::trimmed(labels[k].unit->0@)))
            &&& (!known && !none(own) ==> field.unit == Some(own))
            &&& (!known && none(own) ==> field.unit is None)
        }),
{
    lemma_label_for(labels, uwnr, k);
}

proof fn lemma_label_for(labels: Seq<EnvCondLabel>, uwnr: u16, k: int)
    requires
        0 <= k <= labels.len(),
        forall|j: int| 0 <= j < k ==> (#[trigger] labels[j]).uwnr != uwnr,
        k < labels.len() ==> labels[k].uwnr == uwnr,
    ensures
        label_for(labels, uwnr) == (if k < labels.len() {
            Some(labels[k])
        } else {
            None
        }),
    decreases labels.len(),
{
    if k > 0 {
        assert(labels[0].uwnr != uwnr);
        assert forall|j: int| 0 <= j < k - 1 implies (#[trigger] labels.skip(1)[j]).uwnr != uwnr by {
            assert(labels.skip(1)[j] == labels[j + 1]);
        }
        lemma_label_for(labels.skip(1), uwnr, k - 1);
    }
}

/// An identifier that is not defined, and one whose bytes are cut, stop the walk: nothing more is
/// decoded, and the rest is the tail.
pub proof fn law_an_unknown_identifier_stops_the_walk(
    defs: Map<u16, EnvCondView>,
    labels: Seq<EnvCondLabel>,
    number: u8,
    count: u8,
    uwnr: u16,
    rest: Seq<u8>,
)
    requires
        count > 0,
        !defs.contains_key(uwnr) || rest.len() < defs[uwnr].width,
    ensures
        ({
            let body = seq![(uwnr / 0x100) as u8, (uwnr % 0x100) as u8] + rest;
            let region = seq![number, count] + body;
            &&& fields_in(defs, labels, region, 0).len() == 0
            &&& tail_in(defs, region, 0) == body
        }),
{
    let body = seq![(uwnr / 0x100) as u8, (uwnr % 0x100) as u8] + rest;
    let region = seq![number, count] + body;
    assert(region.skip(2) =~= body);
    assert(crate::bytes::be16(body[0], body[1]) == uwnr);
    assert(!can_size(defs, body));
    assert(fields_in(defs, labels, body, count as nat) =~= Seq::<FieldView>::empty());
    assert(tail_in(defs, body, count as nat) == body);
    assert(fields_in(defs, labels, region, 0) == fields_in(
        defs,
        labels,
        region.skip(2),
        region[1] as nat,
    ));
    assert(tail_in(defs, region, 0) == tail_in(defs, region.skip(2), region[1] as nat));
}

/// The value of an extended-data record is the big-endian number of its bytes; eight bytes are a
/// signed number, and no bytes are no value.
pub proof fn law_a_record_is_its_big_endian_number(record: u8, label: Seq<char>, data: Seq<u8>)
    ensures
        ext_field(record, label, data).record == record,
        ext_field(record, label, data).label == label,
        ext_field(record, label, data).raw == data,
        data.len() == 0 <==> ext_field(record, label, data).value is None,
        0 < data.len() < 8 ==> ext_field(record, label, data).value == Some(
            crate::bytes::be_value(data) as i64,
        ),
        data.len() == 8 ==> ext_field(record, label, data).value == Some(
            (if data[0] < 0x80 {
                crate::bytes::be_value(data) as int
            } else {
                crate::bytes::be_value(data) - 0x1_0000_0000_0000_0000
            }) as i64,
        ),
{
    if data.len() <= 8 {
        lemma_be_value_bound(data);
    }
    if data.len() == 8 {
        lemma_leading_byte(data);
    }
}

proof fn lemma_leading_byte(data: Seq<u8>)
    requires
        0 < data.len() <= 8,
    ensures
        data[0] * byte_range((data.len() - 1) as nat) <= crate::bytes::be_value(data) < (data[0]
            + 1) * byte_range((data.len() - 1) as nat),
    decreases data.len(),
{
    if data.len() > 1 {
        lemma_leading_byte(data.drop_last());
        assert(data.drop_last()[0] == data[0]);
        let n = (data.len() - 2) as nat;
        assert(byte_range(n + 1) == byte_range(n) * 256);
        assert(data[0] * (byte_range(n) * 256) == data[0] * byte_range(n) * 256)
            by (nonlinear_arith);
        assert((data[0] + 1) * (byte_range(n) * 256) == (data[0] + 1) * byte_range(n) * 256)
            by (nonlinear_arith);
    } else {
        reveal_with_fuel(crate::bytes::be_value, 2);
    }
}

/// The table of extended-data records gives each number its name and its length: a row counts if
/// its number and its length can be read, and of several for one number the last.
pub proof fn law_a_record_row_gives_name_and_length(
    wert: int,
    text: int,
    anz: int,
    rows: Seq<Seq<Seq<char>>>,
    row: Seq<Seq<char>>,
    other: u8,
)
    requires
        0 <= wert < row.len(),
        0 <= text < row.len(),
        0 <= anz < row.len(),
    ensures
        ({
            let before = ext_of_rows(wert, text, anz, rows);
            let after = ext_of_rows(wert, text, anz, rows.push(row));
            let number = crate::text::hex_cell_value(row[wert], 0xFF);
            let length = crate::text::unsigned_value(
                crate::text::trimmed(row[anz]),
                10,
                usize::MAX as int,
            );
            &&& (rows.len() == 0 ==> before == Map::<u8, (Seq<char>, nat)>::empty())
            &&& (number is None || length is None ==> after == before)
            &&& (number is Some && length is Some ==> {
                &&& after.contains_key(number->0 as u8)
                &&& after[number->0 as u8] == (row[text], length->0 as nat)
                &&& (other != number->0 as u8 ==> (after.contains_key(other)
                    <==> before.contains_key(other)) && (before.contains_key(other)
                    ==> after[other] == before[other]))
            })
        }),
{
    assert(rows.push(row).drop_last() =~= rows);
}

/// The extended-data records of an ECU come from its table of that name, by the columns of these
/// names; without the table or one of the columns there are none.
pub proof fn law_record_definitions_come_from_their_table(
    tables: Seq<crate::sgbd::prg::TableView>,
    table: crate::sgbd::prg::TableView,
)
    ensures
        table_named(tables, "DTCEXTENDEDDATARECORDNUMBER"@) is None ==> ext_defs(tables)
            == Map::<u8, (Seq<char>, nat)>::empty(),
        table_named(tables, "DTCEXTENDEDDATARECORDNUMBER"@) == Some(table) && !(
        table.columns.contains("WERT"@) && table.columns.contains("TEXT"@)
            && table.columns.contains("ANZ_BYTE"@)) ==> ext_defs(tables)
            == Map::<u8, (Seq<char>, nat)>::empty(),
        table_named(tables, "DTCEXTENDEDDATARECORDNUMBER"@) == Some(table)
            && table.columns.contains("WERT"@) && table.columns.contains("TEXT"@)
            && table.columns.contains("ANZ_BYTE"@) ==> exists|wert: int, text: int, anz: int|
            0 <= wert < table.columns.len() && table.columns[wert] == "WERT"@ && 0 <= text
                < table.columns.len() && table.columns[text] == "TEXT"@ && 0 <= anz
                < table.columns.len() && table.columns[anz] == "ANZ_BYTE"@ && ext_defs(tables)
                == #[trigger] ext_of_rows(wert, text, anz, table.rows),
{
    crate::text::law_a_position_is_the_first_occurrence(table.columns, "WERT"@);
    crate::text::law_a_position_is_the_first_occurrence(table.columns, "TEXT"@);
    crate::text::law_a_position_is_the_first_occurrence(table.columns, "ANZ_BYTE"@);
    if table_named(tables, "DTCEXTENDEDDATARECORDNUMBER"@) == Some(table)
        && table.columns.contains("WERT"@) && table.columns.contains("TEXT"@)
        && table.columns.contains("ANZ_BYTE"@) {
        let wert = crate::text::position(table.columns, "WERT"@)->0;
        let text = crate::text::position(table.columns, "TEXT"@)->0;
        let anz = crate::text::position(table.columns, "ANZ_BYTE"@)->0;
        assert(ext_defs(tables) == ext_of_rows(wert, text, anz, table.rows));
    }
}

/// A record number that is not defined, and one whose bytes are cut, stop the walk.
pub proof fn law_an_unknown_record_stops_the_walk(
    defs: Map<u8, (Seq<char>, nat)>,
    record: u8,
    rest: Seq<u8>,
)
    requires
        !defs.contains_key(record) || rest.len() < defs[record].1,
    ensures
        records_in(defs, seq![record] + rest).len() == 0,
        records_tail(defs, seq![record] + rest) == seq![record] + rest,
{
}

/// The model of a value says of each field what the field holds, and a list is modelled item by
/// item, in order.
pub proof fn law_a_model_shows_what_its_value_holds(
    env_cond_def: EnvCondDef,
    snapshot_field: SnapshotField,
    ext_data_field: ExtDataField,
    fields: Seq<SnapshotField>,
    ext: Seq<ExtDataField>,
)
    ensures
        env_cond_def@.uwnr == env_cond_def.uwnr,
        env_cond_def@.text_de == env_cond_def.text_de@,
        env_cond_def@.unit_sgbd == env_cond_def.unit_sgbd@,
        env_cond_def@.width == env_cond_def.width as nat,
        env_cond_def@.repr == env_cond_def.repr,
        env_cond_def@.mul == env_cond_def.mul@,
        env_cond_def@.div == env_cond_def.div@,
        env_cond_def@.add == env_cond_def.add@,
        env_cond_def@.sentinel == env_cond_def.sentinel,
        snapshot_field@.uwnr == snapshot_field.uwnr,
        snapshot_field@.label == snapshot_field.label@,
        snapshot_field@.number == snapshot_field.number,
        snapshot_field@.mul == snapshot_field.mul@,
        snapshot_field@.div == snapshot_field.div@,
        snapshot_field@.add == snapshot_field.add@,
        snapshot_field@.unit == crate::text::opt_view(snapshot_field.unit),
        snapshot_field@.available == snapshot_field.available,
        snapshot_field@.raw == snapshot_field.raw@,
        ext_data_field@.record == ext_data_field.record,
        ext_data_field@.label == ext_data_field.label@,
        ext_data_field@.value == ext_data_field.value,
        ext_data_field@.raw == ext_data_field.raw@,
        fields_view(fields).len() == fields.len(),
        forall|i: int| 0 <= i < fields.len() ==> #[trigger] fields_view(fields)[i] == fields[i]@,
        ext_view(ext).len() == ext.len(),
        forall|i: int| 0 <= i < ext.len() ==> #[trigger] ext_view(ext)[i] == ext[i]@,
{
}

} // verus!
