//! Proprietary measurements from an ECU's `SG_FUNKTIONEN` table.
//!
//! Each row gives an internal id, a raw data type, a multiplier, a divisor, an offset, and a unit;
//! the physical value is `raw · MUL / DIV + ADD`, read big-endian at the row's data type. What is
//! read, and with which factors it is scaled, is decided here; the floating-point arithmetic itself
//! is the application's part. Anything not understood (an unhandled data type, a too-short
//! response, an unparsable row) degrades to raw rather than being an error.
use std::collections::HashMap;
use vstd::prelude::*;
use crate::bytes::{read_be16, read_be32};
use crate::sgbd::prg::{Prg, Table};
use crate::text::{
    from_chars, is_float_text, parse_hex_cell, position_of, same_text, split_chars, to_chars, trim,
    trim_text,
};
use crate::uds::{
    clear_dynamic_data_identifier, define_dynamic_data_by_identifier, read_data_by_identifier,
};

verus! {

broadcast use vstd::std_specs::hash::group_hash_axioms;

// ---------------------------------------------------------------------------
// Raw values
// ---------------------------------------------------------------------------

/// The raw data type of a measurement, as named in the table. All reads are big-endian.
#[derive(Debug, Clone, Copy, PartialEq, Eq, Structural)]
pub enum DataType {
    /// `unsigned char`: one unsigned byte.
    U8,
    /// `unsigned int`: two-byte unsigned.
    U16,
    /// `unsigned long`: four-byte unsigned.
    U32,
    /// `motorola float`: four-byte IEEE-754 single.
    F32Be,
}

/// A raw number: an unsigned integer, or the bits of an IEEE-754 single.
#[derive(Debug, Clone, Copy, PartialEq, Eq, Structural)]
pub enum RawNumber {
    Unsigned(u64),
    FloatBits(u32),
}

/// The data type of a name.
pub open spec fn datatype_named(s: Seq<char>) -> Option<DataType> {
    let t = crate::text::trimmed(s);
    if t == "unsigned char"@ {
        Some(DataType::U8)
    } else if t == "unsigned int"@ {
        Some(DataType::U16)
    } else if t == "unsigned long"@ {
        Some(DataType::U32)
    } else if t == "motorola float"@ {
        Some(DataType::F32Be)
    } else {
        None
    }
}

/// The number of raw bytes of a data type.
pub open spec fn width_of(d: DataType) -> nat {
    match d {
        DataType::U8 => 1,
        DataType::U16 => 2,
        DataType::U32 => 4,
        DataType::F32Be => 4,
    }
}

/// The number at the front of `raw`.
pub open spec fn number_in(d: DataType, raw: Seq<u8>) -> Option<RawNumber> {
    if raw.len() < width_of(d) {
        None
    } else {
        match d {
            DataType::U8 => Some(RawNumber::Unsigned(raw[0] as u64)),
            DataType::U16 => Some(RawNumber::Unsigned(crate::bytes::be16(raw[0], raw[1]) as u64)),
            DataType::U32 => Some(
                RawNumber::Unsigned(crate::bytes::be32(raw[0], raw[1], raw[2], raw[3]) as u64),
            ),
            DataType::F32Be => Some(
                RawNumber::FloatBits(crate::bytes::be32(raw[0], raw[1], raw[2], raw[3]) as u32),
            ),
        }
    }
}

impl DataType {
    /// Map a data type's name to it, if recognized.
    pub fn from_datentyp(datentyp: &str) -> (r: Option<DataType>)
        ensures
            r == datatype_named(datentyp@),
    {
        let t = trim_text(datentyp);
        let t = t.as_str();
        if same_text(t, "unsigned char") {
            Some(DataType::U8)
        } else if same_text(t, "unsigned int") {
            Some(DataType::U16)
        } else if same_text(t, "unsigned long") {
            Some(DataType::U32)
        } else if same_text(t, "motorola float") {
            Some(DataType::F32Be)
        } else {
            None
        }
    }

    /// The number of raw bytes this data type reads.
    pub fn width(self) -> (r: usize)
        ensures
            r == width_of(self),
    {
        match self {
            DataType::U8 => 1,
            DataType::U16 => 2,
            DataType::U32 => 4,
            DataType::F32Be => 4,
        }
    }

    /// Read this type's number from the big-endian prefix of `raw`.
    ///
    /// `None` when `raw` is shorter than [`DataType::width`].
    pub fn read_be(self, raw: &[u8]) -> (r: Option<RawNumber>)
        ensures
            r == number_in(self, raw@),
    {
        if raw.len() < self.width() {
            return None;
        }
        match self {
            DataType::U8 => Some(RawNumber::Unsigned(raw[0] as u64)),
            DataType::U16 => Some(RawNumber::Unsigned(read_be16(raw[0], raw[1]) as u64)),
            DataType::U32 => Some(
                RawNumber::Unsigned(read_be32(raw[0], raw[1], raw[2], raw[3]) as u64),
            ),
            DataType::F32Be => Some(
                RawNumber::FloatBits(read_be32(raw[0], raw[1], raw[2], raw[3])),
            ),
        }
    }
}

/// A factor of a scaling: left blank in the table, or a number as it is written there.
#[derive(Debug, Clone, PartialEq, Eq)]
pub enum Factor {
    /// Left blank: one for a multiplier or a divisor, zero for an offset.
    Blank,
    /// A floating-point number, trimmed.
    Number(String),
}

/// The view of a [`Factor`].
#[verifier::ext_equal]
pub enum FactorView {
    Blank,
    Number(Seq<char>),
}

impl View for Factor {
    type V = FactorView;

    open spec fn view(&self) -> FactorView {
        match *self {
            Factor::Blank => FactorView::Blank,
            Factor::Number(t) => FactorView::Number(t@),
        }
    }
}

/// The factor in a cell: blank for `-` or nothing, else a number.
pub open spec fn factor_in(s: Seq<char>) -> Option<FactorView> {
    let t = crate::text::trimmed(s);
    if t.len() == 0 || t == seq!['-'] {
        Some(FactorView::Blank)
    } else if crate::text::float_text(t) {
        Some(FactorView::Number(t))
    } else {
        None
    }
}

/// The view of an optional factor.
pub open spec fn opt_factor_view(f: Option<Factor>) -> Option<FactorView> {
    match f {
        Some(f) => Some(f@),
        None => None,
    }
}

/// Read a factor cell: a blank (`-` or empty), or a number; `None` for anything else.
pub fn parse_factor(s: &str) -> (r: Option<Factor>)
    ensures
        opt_factor_view(r) == factor_in(s@),
{
    let chars = to_chars(s);
    let t = trim(chars.as_slice());
    if t.len() == 0 || (t.len() == 1 && t[0] == '-') {
        assert(t@.len() == 1 ==> t@ =~= seq!['-']);
        return Some(Factor::Blank);
    }
    assert(t@ != seq!['-']);
    if is_float_text(t) {
        Some(Factor::Number(from_chars(t)))
    } else {
        None
    }
}

/// A copy of a factor.
pub fn copy_factor(f: &Factor) -> (r: Factor)
    ensures
        r@ == f@,
{
    match f {
        Factor::Blank => Factor::Blank,
        Factor::Number(t) => Factor::Number(t.clone()),
    }
}

/// The identifier in a cell like `0x4BC3` (with or without the `0x` prefix).
pub fn parse_id(s: &str) -> (r: Option<u16>)
    ensures
        crate::text::hex_cell_value(s@, 0xFFFF) == (match r {
            Some(v) => Some(v as int),
            None => None,
        }),
{
    match parse_hex_cell(s, 0xFFFF) {
        Some(v) => Some(v as u16),
        None => None,
    }
}

// ---------------------------------------------------------------------------
// Folding names
// ---------------------------------------------------------------------------

/// What std's lower-casing makes of a text.
pub uninterp spec fn lowered(s: Seq<char>) -> Seq<char>;

/// `str::to_lowercase` of std: the text with every character in lower case, by Unicode's rules.
/// The result is named; those rules are not stated.
#[verifier::external_body]
fn lowercase(s: &str) -> (r: String)
    ensures
        r@ == lowered(s@),
{
    s.to_lowercase()
}

/// `s` with every `ß` written `ss`.
pub open spec fn without_sharp_s(s: Seq<char>) -> Seq<char>
    decreases s.len(),
{
    if s.len() == 0 {
        s
    } else if s.last() == '\u{DF}' {
        without_sharp_s(s.drop_last()) + seq!['s', 's']
    } else {
        without_sharp_s(s.drop_last()).push(s.last())
    }
}

/// A name as it is matched: trimmed, in lower case, `ß` as `ss`.
pub open spec fn folded(s: Seq<char>) -> Seq<char> {
    without_sharp_s(lowered(crate::text::trimmed(s)))
}

/// Fold a name that is already trimmed and in lower case: `ß` becomes `ss`.
pub fn fold_lowered(s: &str) -> (r: String)
    ensures
        r@ == without_sharp_s(s@),
{
    let chars = to_chars(s);
    let mut out: Vec<char> = Vec::new();
    let mut i: usize = 0;
    assert(without_sharp_s(s@.take(0)) =~= out@);
    while i < chars.len()
        invariant
            i <= chars.len(),
            chars@ == s@,
            out@ == without_sharp_s(s@.take(i as int)),
        decreases chars.len() - i,
    {
        assert(s@.take(i + 1).drop_last() =~= s@.take(i as int));
        let ghost before = out@;
        if chars[i] == '\u{DF}' {
            out.push('s');
            out.push('s');
            assert(out@ =~= before + seq!['s', 's']);
        } else {
            out.push(chars[i]);
        }
        i = i + 1;
    }
    assert(s@.take(i as int) =~= s@);
    from_chars(out.as_slice())
}

/// Case-fold `s` for measurement-name matching: trim, Unicode-lowercase, `ß` as `ss`.
///
/// The catalog is German: lower-casing alone does not fold `ß` to `ss`, while upper-casing writes it
/// so, and the round trip would break.
pub fn fold_for_match(s: &str) -> (r: String)
    ensures
        r@ == folded(s@),
{
    let trimmed = trim_text(s);
    let lower = lowercase(trimmed.as_str());
    fold_lowered(lower.as_str())
}

proof fn lemma_no_sharp_s(s: Seq<char>)
    ensures
        !without_sharp_s(s).contains('\u{DF}'),
    decreases s.len(),
{
    if s.len() > 0 {
        lemma_no_sharp_s(s.drop_last());
        let before = without_sharp_s(s.drop_last());
        let after = without_sharp_s(s);
        assert forall|i: int| 0 <= i < after.len() implies after[i] != '\u{DF}' by {
            if i < before.len() {
                assert(after[i] == before[i]);
                assert(before.contains(before[i]));
            }
        }
    }
}

proof fn lemma_nothing_to_replace(s: Seq<char>)
    requires
        !s.contains('\u{DF}'),
    ensures
        without_sharp_s(s) == s,
    decreases s.len(),
{
    if s.len() > 0 {
        let short = s.drop_last();
        assert(s.contains(s.last()));
        assert forall|i: int| 0 <= i < short.len() implies short[i] != '\u{DF}' by {
            assert(s.contains(s[i]));
        }
        lemma_nothing_to_replace(short);
        assert(short.push(s.last()) =~= s);
    }
}

/// Folding leaves no `ß` behind, so writing `ß` as `ss` once more changes nothing.
pub proof fn law_folding_leaves_no_sharp_s(s: Seq<char>)
    ensures
        !folded(s).contains('\u{DF}'),
        without_sharp_s(folded(s)) == folded(s),
{
    lemma_no_sharp_s(lowered(crate::text::trimmed(s)));
    lemma_nothing_to_replace(folded(s));
}

/// Folding a folded name changes nothing wherever trimming and lower-casing change nothing of it.
pub proof fn law_folding_settles_with_lower_casing(s: Seq<char>)
    requires
        crate::text::trimmed(folded(s)) == folded(s),
        lowered(folded(s)) == folded(s),
    ensures
        folded(folded(s)) == folded(s),
{
    law_folding_leaves_no_sharp_s(s);
}

// ---------------------------------------------------------------------------
// Measurements
// ---------------------------------------------------------------------------

/// One measurement: how to read and scale a proprietary value.
#[derive(Debug, Clone, PartialEq, Eq)]
pub struct Measurement {
    /// The short id, e.g. `ITMOT`.
    pub arg: String,
    /// The internal data identifier used to read the value, e.g. `0x4BC3`.
    pub id: u16,
    /// The result name, e.g. `STAT_MOTORTEMPERATUR_WERT`.
    pub result_name: String,
    /// The human description, e.g. `Motortemperatur` (may be empty).
    pub description: String,
    /// The engineering unit, e.g. `degC` (may be empty).
    pub unit: String,
    /// The raw data type read from the response.
    pub datatype: DataType,
    /// The multiplier in `raw · mul / div + add`.
    pub mul: Factor,
    /// The divisor in `raw · mul / div + add`.
    pub div: Factor,
    /// The offset in `raw · mul / div + add`.
    pub add: Factor,
    /// The ECU diagnostic address as written in the table (e.g. `12`).
    pub sg_adr: String,
    /// The services used to read it (e.g. `22;2C`).
    pub service: String,
}

/// What a [`Measurement`] holds.
#[verifier::ext_equal]
pub struct MeasurementView {
    pub arg: Seq<char>,
    pub id: u16,
    pub result_name: Seq<char>,
    pub description: Seq<char>,
    pub unit: Seq<char>,
    pub datatype: DataType,
    pub mul: FactorView,
    pub div: FactorView,
    pub add: FactorView,
    pub sg_adr: Seq<char>,
    pub service: Seq<char>,
}

impl View for Measurement {
    type V = MeasurementView;

    open spec fn view(&self) -> MeasurementView {
        MeasurementView {
            arg: self.arg@,
            id: self.id,
            result_name: self.result_name@,
            description: self.description@,
            unit: self.unit@,
            datatype: self.datatype,
            mul: self.mul@,
            div: self.div@,
            add: self.add@,
            sg_adr: self.sg_adr@,
            service: self.service@,
        }
    }
}

/// The views of measurements by id.
pub open spec fn measurements_view(m: Map<u16, Measurement>) -> Map<u16, MeasurementView> {
    Map::new(|id: u16| m.contains_key(id), |id: u16| m[id]@)
}

/// The views of borrowed measurements.
pub open spec fn refs_view(v: Seq<&Measurement>) -> Seq<MeasurementView> {
    Seq::new(v.len(), |i: int| v[i]@)
}

/// The human name of a measurement: the description, else the result name.
pub open spec fn name_in(m: MeasurementView) -> Seq<char> {
    if m.description.len() == 0 || m.description == seq!['-'] {
        m.result_name
    } else {
        m.description
    }
}

/// Whether a list of services names the dynamic one.
pub open spec fn lists_dynamic(service: Seq<char>) -> bool {
    exists|i: int|
        0 <= i < crate::text::split(service, ';').len() && crate::text::trimmed(
            #[trigger] crate::text::split(service, ';')[i],
        ) == seq!['2', 'C']
}

impl Measurement {
    /// The human name of the signal: the description, else the result name.
    pub fn name(&self) -> (r: &str)
        ensures
            r@ == name_in(self@),
    {
        let description = to_chars(self.description.as_str());
        if description.len() == 0 || (description.len() == 1 && description[0] == '-') {
            assert(description@.len() == 1 ==> description@ =~= seq!['-']);
            self.result_name.as_str()
        } else {
            self.description.as_str()
        }
    }

    /// Whether this measurement is read via the dynamic define sequence: its service column lists
    /// `2C`.
    pub fn is_dynamic(&self) -> (r: bool)
        ensures
            r == lists_dynamic(self@.service),
    {
        let chars = to_chars(self.service.as_str());
        let parts = split_chars(chars.as_slice(), ';');
        let ghost views = crate::text::split(self@.service, ';');
        let mut i: usize = 0;
        while i < parts.len()
            invariant
                i <= parts.len(),
                views == crate::text::split(self@.service, ';'),
                crate::text::chars_views(parts@) == views,
                forall|k: int|
                    0 <= k < i ==> crate::text::trimmed(#[trigger] views[k]) != seq!['2', 'C'],
            decreases parts.len() - i,
        {
            assert(crate::text::chars_views(parts@)[i as int] == parts@[i as int]@);
            let t = trim(parts[i].as_slice());
            if t.len() == 2 && t[0] == '2' && t[1] == 'C' {
                assert(t@ =~= seq!['2', 'C']);
                return true;
            }
            i = i + 1;
        }
        assert(crate::text::chars_views(parts@).len() == parts@.len());
        false
    }
}

/// Where the table keeps what a measurement needs.
pub struct ColumnIndexView {
    pub arg: int,
    pub id: int,
    pub result_name: int,
    pub info: int,
    pub unit: int,
    pub datentyp: int,
    pub mul: int,
    pub div: int,
    pub add: int,
    pub sg_adr: int,
    pub service: int,
}

/// The columns of a measurement table, if all are there.
pub open spec fn columns_in(columns: Seq<Seq<char>>) -> Option<ColumnIndexView> {
    let at = |name: Seq<char>| crate::text::position(columns, name);
    if at("ARG"@) is Some && at("ID"@) is Some && at("RESULTNAME"@) is Some && at("INFO"@) is Some
        && at("EINHEIT"@) is Some && at("DATENTYP"@) is Some && at("MUL"@) is Some && at(
        "DIV"@,
    ) is Some && at("ADD"@) is Some && at("SG_ADR"@) is Some && at("SERVICE"@) is Some {
        Some(
            ColumnIndexView {
                arg: at("ARG"@)->0,
                id: at("ID"@)->0,
                result_name: at("RESULTNAME"@)->0,
                info: at("INFO"@)->0,
                unit: at("EINHEIT"@)->0,
                datentyp: at("DATENTYP"@)->0,
                mul: at("MUL"@)->0,
                div: at("DIV"@)->0,
                add: at("ADD"@)->0,
                sg_adr: at("SG_ADR"@)->0,
                service: at("SERVICE"@)->0,
            },
        )
    } else {
        None
    }
}

/// The cell at `i`, or an empty text.
pub open spec fn cell_or_empty(row: Seq<Seq<char>>, i: int) -> Seq<char> {
    if i < row.len() {
        row[i]
    } else {
        Seq::<char>::empty()
    }
}

/// The factor in the cell at `i`; a missing cell has none.
pub open spec fn factor_at(row: Seq<Seq<char>>, i: int) -> Option<FactorView> {
    if i < row.len() {
        factor_in(row[i])
    } else {
        None
    }
}

/// The identifier in the cell at `i`; a missing cell has none.
pub open spec fn id_at(row: Seq<Seq<char>>, i: int) -> Option<int> {
    if i < row.len() {
        crate::text::hex_cell_value(row[i], 0xFFFF)
    } else {
        None
    }
}

/// The measurement of a row: skipped when its id, data type, or a factor does not parse.
pub open spec fn measurement_in(c: ColumnIndexView, row: Seq<Seq<char>>) -> Option<MeasurementView> {
    let datatype = if c.datentyp < row.len() {
        datatype_named(row[c.datentyp])
    } else {
        None
    };
    match (
        id_at(row, c.id),
        datatype,
        factor_at(row, c.mul),
        factor_at(row, c.div),
        factor_at(row, c.add),
    ) {
        (Some(id), Some(datatype), Some(mul), Some(div), Some(add)) => Some(
            MeasurementView {
                arg: cell_or_empty(row, c.arg),
                id: id as u16,
                result_name: cell_or_empty(row, c.result_name),
                description: cell_or_empty(row, c.info),
                unit: cell_or_empty(row, c.unit),
                datatype,
                mul,
                div,
                add,
                sg_adr: cell_or_empty(row, c.sg_adr),
                service: cell_or_empty(row, c.service),
            },
        ),
        _ => None,
    }
}

/// The measurements with `m` put in; a measurement of the same id that is already there is kept.
pub open spec fn put_by_id(before: Map<u16, MeasurementView>, m: MeasurementView) -> Map<
    u16,
    MeasurementView,
> {
    if before.contains_key(m.id) {
        before
    } else {
        before.insert(m.id, m)
    }
}

/// The measurements of rows, by id; of several rows with one id it is the first.
pub open spec fn measurements_of_rows(c: ColumnIndexView, rows: Seq<Seq<Seq<char>>>) -> Map<
    u16,
    MeasurementView,
>
    decreases rows.len(),
{
    if rows.len() == 0 {
        Map::<u16, MeasurementView>::empty()
    } else {
        let before = measurements_of_rows(c, rows.drop_last());
        match measurement_in(c, rows.last()) {
            Some(m) => put_by_id(before, m),
            None => before,
        }
    }
}

/// The measurements of a table, by id.
pub open spec fn measurements_of(table: crate::sgbd::prg::TableView) -> Map<u16, MeasurementView> {
    match columns_in(table.columns) {
        Some(c) => measurements_of_rows(c, table.rows),
        None => Map::<u16, MeasurementView>::empty(),
    }
}

/// Whether every measurement stands under its own id.
pub open spec fn well_keyed(m: Map<u16, MeasurementView>) -> bool {
    forall|id: u16| #[trigger] m.contains_key(id) ==> m[id].id == id
}

/// Whether a list strictly ascends by id.
pub open spec fn by_id(list: Seq<MeasurementView>) -> bool {
    forall|i: int, j: int|
        0 <= i < j < list.len() ==> (#[trigger] list[i]).id < (#[trigger] list[j]).id
}

/// The measurements whose id is at least `from`, ascending.
pub open spec fn listed_from(m: Map<u16, MeasurementView>, from: nat) -> Seq<MeasurementView>
    decreases 0x1_0000 - from,
{
    if from >= 0x1_0000 {
        Seq::<MeasurementView>::empty()
    } else if m.contains_key(from as u16) {
        seq![m[from as u16]] + listed_from(m, from + 1)
    } else {
        listed_from(m, from + 1)
    }
}

/// Every measurement, ascending by id.
pub open spec fn listing(m: Map<u16, MeasurementView>) -> Seq<MeasurementView> {
    listed_from(m, 0)
}

/// Whether ids strictly ascend.
pub open spec fn ascending(ids: Seq<u16>) -> bool {
    forall|i: int, j: int| 0 <= i < j < ids.len() ==> ids[i] < ids[j]
}

proof fn lemma_listed(m: Map<u16, MeasurementView>, ids: Seq<u16>, from: nat, p: int)
    requires
        ascending(ids),
        forall|id: u16| #[trigger] ids.contains(id) <==> m.contains_key(id),
        from <= 0x1_0000,
        0 <= p <= ids.len(),
        forall|k: int| 0 <= k < p ==> #[trigger] ids[k] < from,
        forall|k: int| p <= k < ids.len() ==> #[trigger] ids[k] >= from,
    ensures
        listed_from(m, from) == Seq::new((ids.len() - p) as nat, |k: int| m[ids[p + k]]),
    decreases 0x1_0000 - from,
{
    let expected = Seq::new((ids.len() - p) as nat, |k: int| m[ids[p + k]]);
    if from == 0x1_0000 {
        if p < ids.len() {
            assert(ids[p] >= from);
        }
        assert(listed_from(m, from) =~= expected);
    } else {
        let id = from as u16;
        if m.contains_key(id) {
            assert(ids.contains(id));
            let q = choose|q: int| 0 <= q < ids.len() && ids[q] == id;
            assert(q >= p) by {
                if q < p {
                    assert(ids[q] < from);
                }
            }
            assert(q == p) by {
                if q > p {
                    assert(ids[p] < ids[q]);
                    assert(ids[p] >= from);
                }
            }
            assert forall|k: int| p + 1 <= k < ids.len() implies #[trigger] ids[k] >= from + 1 by {
                assert(ids[p] < ids[k]);
            }
            lemma_listed(m, ids, from + 1, p + 1);
            assert(listed_from(m, from) =~= expected);
        } else {
            assert forall|k: int| p <= k < ids.len() implies #[trigger] ids[k] >= from + 1 by {
                if ids[k] == from {
                    assert(ids.contains(id));
                }
            }
            lemma_listed(m, ids, from + 1, p);
        }
    }
}

proof fn lemma_listed_ascends(m: Map<u16, MeasurementView>, from: nat)
    requires
        well_keyed(m),
    ensures
        by_id(listed_from(m, from)),
        forall|i: int|
            0 <= i < listed_from(m, from).len() ==> (#[trigger] listed_from(m, from)[i]).id >= from
                && m.contains_key(listed_from(m, from)[i].id) && m[listed_from(m, from)[i].id]
                == listed_from(m, from)[i],
        forall|id: u16|
            from <= id && #[trigger] m.contains_key(id) ==> listed_from(m, from).contains(m[id]),
    decreases 0x1_0000 - from,
{
    if from < 0x1_0000 {
        lemma_listed_ascends(m, from + 1);
        let rest = listed_from(m, from + 1);
        let list = listed_from(m, from);
        let key = from as u16;
        let shift: int = if m.contains_key(key) {
            1
        } else {
            0
        };
        assert forall|i: int| 0 <= i < list.len() implies (#[trigger] list[i]).id >= from
            && m.contains_key(list[i].id) && m[list[i].id] == list[i] by {
            if i >= shift {
                assert(list[i] == rest[i - shift]);
            }
        }
        assert forall|i: int, j: int| 0 <= i < j < list.len() implies (#[trigger] list[i]).id < (
        #[trigger] list[j]).id by {
            assert(list[j] == rest[j - shift]);
            if i >= shift {
                assert(list[i] == rest[i - shift]);
            }
        }
        assert forall|id: u16| from <= id && #[trigger] m.contains_key(id) implies list.contains(
            m[id],
        ) by {
            if id == from {
                assert(list[0] == m[id]);
            } else {
                assert(rest.contains(m[id]));
                let k = choose|k: int| 0 <= k < rest.len() && rest[k] == m[id];
                assert(list[k + shift] == m[id]);
            }
        }
    }
}

/// Every measurement is listed, once, ascending by id.
pub proof fn law_the_listing_is_complete_and_ordered(m: Map<u16, MeasurementView>)
    requires
        well_keyed(m),
    ensures
        by_id(listing(m)),
        forall|x: MeasurementView| #[trigger]
            listing(m).contains(x) <==> m.contains_key(x.id) && m[x.id] == x,
{
    lemma_listed_ascends(m, 0);
    assert forall|x: MeasurementView| #[trigger] listing(m).contains(x) <==> m.contains_key(x.id)
        && m[x.id] == x by {
        if listing(m).contains(x) {
            let i = choose|i: int| 0 <= i < listing(m).len() && listing(m)[i] == x;
            assert(m.contains_key(listing(m)[i].id));
        }
    }
}

/// The first row's measurement with an id.
pub open spec fn first_row_with(
    c: ColumnIndexView,
    rows: Seq<Seq<Seq<char>>>,
    id: u16,
) -> Option<MeasurementView>
    decreases rows.len(),
{
    if rows.len() == 0 {
        None
    } else {
        match first_row_with(c, rows.drop_last(), id) {
            Some(m) => Some(m),
            None => match measurement_in(c, rows.last()) {
                Some(m) => if m.id == id {
                    Some(m)
                } else {
                    None
                },
                None => None,
            },
        }
    }
}

/// Each id has the measurement of the first row that gives it one: a later row with the same id
/// never replaces it. Every measurement stands under its own id.
pub proof fn law_the_first_row_of_an_id_is_kept(
    c: ColumnIndexView,
    rows: Seq<Seq<Seq<char>>>,
    id: u16,
)
    ensures
        well_keyed(measurements_of_rows(c, rows)),
        measurements_of_rows(c, rows).contains_key(id) <==> first_row_with(c, rows, id) is Some,
        first_row_with(c, rows, id) matches Some(m) ==> measurements_of_rows(c, rows)[id] == m,
    decreases rows.len(),
{
    if rows.len() > 0 {
        law_the_first_row_of_an_id_is_kept(c, rows.drop_last(), id);
    }
}

/// Whether a field of a measurement is the (folded, non-empty) name asked for: placeholders and
/// empty fields never match.
pub open spec fn field_matches(field: Seq<char>, query: Seq<char>) -> bool {
    let t = crate::text::trimmed(field);
    t.len() > 0 && t != seq!['-'] && folded(t) == query
}

/// Whether a measurement goes by a folded name: its short id, result name, or description.
pub open spec fn goes_by(m: MeasurementView, query: Seq<char>) -> bool {
    field_matches(m.arg, query) || field_matches(m.result_name, query) || field_matches(
        m.description,
        query,
    )
}

/// The measurements that go by a folded name, in order.
pub open spec fn going_by(list: Seq<MeasurementView>, query: Seq<char>) -> Seq<MeasurementView>
    decreases list.len(),
{
    if list.len() == 0 {
        Seq::<MeasurementView>::empty()
    } else {
        let before = going_by(list.drop_last(), query);
        if goes_by(list.last(), query) {
            before.push(list.last())
        } else {
            before
        }
    }
}

/// The measurements named `name`; an empty name matches nothing.
pub open spec fn named(list: Seq<MeasurementView>, name: Seq<char>) -> Seq<MeasurementView> {
    if folded(name).len() == 0 {
        Seq::<MeasurementView>::empty()
    } else {
        going_by(list, folded(name))
    }
}

proof fn lemma_going_by_ordered(list: Seq<MeasurementView>, query: Seq<char>)
    requires
        by_id(list),
    ensures
        by_id(going_by(list, query)),
        forall|i: int|
            0 <= i < going_by(list, query).len() ==> list.len() > 0 && (#[trigger] going_by(
                list,
                query,
            )[i]).id <= list.last().id && goes_by(going_by(list, query)[i], query),
    decreases list.len(),
{
    if list.len() > 0 {
        let short = list.drop_last();
        assert(by_id(short)) by {
            assert forall|i: int, j: int| 0 <= i < j < short.len() implies (#[trigger] short[i]).id
                < (#[trigger] short[j]).id by {
                assert(list[i].id < list[j].id);
            }
        }
        lemma_going_by_ordered(short, query);
        let before = going_by(short, query);
        let after = going_by(list, query);
        if short.len() > 0 {
            assert(list[list.len() - 2].id < list[list.len() - 1].id);
        }
        assert forall|i: int| 0 <= i < after.len() implies list.len() > 0 && (
        #[trigger] after[i]).id <= list.last().id && goes_by(after[i], query) by {
            if i < before.len() {
                assert(before[i].id <= short.last().id);
                assert(after[i] == before[i]);
            }
        }
        assert forall|i: int, j: int| 0 <= i < j < after.len() implies (#[trigger] after[i]).id < (
        #[trigger] after[j]).id by {
            if j < before.len() {
                assert(before[i].id < before[j].id);
            } else {
                assert(before[i].id <= short.last().id);
            }
        }
    }
}

proof fn lemma_going_by_complete(list: Seq<MeasurementView>, query: Seq<char>)
    ensures
        forall|x: MeasurementView| #[trigger]
            going_by(list, query).contains(x) <==> list.contains(x) && goes_by(x, query),
    decreases list.len(),
{
    if list.len() > 0 {
        let short = list.drop_last();
        lemma_going_by_complete(short, query);
        let before = going_by(short, query);
        let after = going_by(list, query);
        assert forall|x: MeasurementView| #[trigger] after.contains(x) <==> list.contains(x)
            && goes_by(x, query) by {
            if after.contains(x) {
                let i = choose|i: int| 0 <= i < after.len() && after[i] == x;
                if i < before.len() {
                    assert(before[i] == x);
                    assert(before.contains(x));
                    let k = choose|k: int| 0 <= k < short.len() && short[k] == x;
                    assert(list[k] == x);
                } else {
                    assert(list[list.len() - 1] == x);
                }
            }
            if list.contains(x) && goes_by(x, query) {
                let k = choose|k: int| 0 <= k < list.len() && list[k] == x;
                if k < short.len() {
                    assert(short[k] == x);
                    assert(before.contains(x));
                    let i = choose|i: int| 0 <= i < before.len() && before[i] == x;
                    assert(after[i] == x);
                } else {
                    assert(after[after.len() - 1] == x);
                }
            }
        }
    }
}

/// What a name finds is complete, and ordered by id without repeats: every measurement that goes
/// by it, and one that matches on several of its fields once. An empty name finds nothing.
pub proof fn law_found_measurements_are_ordered_and_unique(
    m: Map<u16, MeasurementView>,
    name: Seq<char>,
)
    requires
        well_keyed(m),
    ensures
        by_id(named(listing(m), name)),
        folded(name).len() == 0 ==> named(listing(m), name).len() == 0,
        folded(name).len() > 0 ==> forall|x: MeasurementView| #[trigger]
            named(listing(m), name).contains(x) <==> m.contains_key(x.id) && m[x.id] == x
                && goes_by(x, folded(name)),
{
    law_the_listing_is_complete_and_ordered(m);
    lemma_going_by_ordered(listing(m), folded(name));
    lemma_going_by_complete(listing(m), folded(name));
}

/// The proprietary measurements of one ECU, by internal id.
///
/// Rows whose id, data type, or factors do not parse are dropped, so the set holds only
/// measurements that can be scaled.
#[derive(Debug)]
pub struct Measurements {
    by_id: HashMap<u16, Measurement>,
}

impl View for Measurements {
    type V = Map<u16, MeasurementView>;

    closed spec fn view(&self) -> Map<u16, MeasurementView> {
        measurements_view(self.by_id@)
    }
}

impl Measurements {
    /// Every measurement stands under its own id.
    #[verifier::type_invariant]
    spec fn keyed(self) -> bool {
        well_keyed(measurements_view(self.by_id@))
    }
}

impl Default for Measurements {
    /// An empty set.
    fn default() -> (r: Measurements)
        ensures
            r@ == Map::<u16, MeasurementView>::empty(),
    {
        let r = Measurements { by_id: HashMap::new() };
        assert(r@ =~= Map::<u16, MeasurementView>::empty());
        r
    }
}

/// A copy of a measurement.
fn copy_measurement(m: &Measurement) -> (r: Measurement)
    ensures
        r@ == m@,
{
    Measurement {
        arg: m.arg.clone(),
        id: m.id,
        result_name: m.result_name.clone(),
        description: m.description.clone(),
        unit: m.unit.clone(),
        datatype: m.datatype,
        mul: copy_factor(&m.mul),
        div: copy_factor(&m.div),
        add: copy_factor(&m.add),
        sg_adr: m.sg_adr.clone(),
        service: m.service.clone(),
    }
}

impl Clone for Measurements {
    /// The same measurements.
    fn clone(&self) -> (r: Measurements)
        ensures
            r@ == self@,
    {
        proof {
            use_type_invariant(self);
        }
        let ids = sorted_ids(&self.by_id);
        let mut by_id: HashMap<u16, Measurement> = HashMap::new();
        let mut i: usize = 0;
        while i < ids.len()
            invariant
                i <= ids.len(),
                forall|id: u16| #[trigger] ids@.contains(id) <==> self.by_id@.contains_key(id),
                forall|id: u16| #[trigger]
                    by_id@.contains_key(id) <==> ids@.take(i as int).contains(id),
                forall|id: u16| #[trigger] by_id@.contains_key(id) ==> by_id@[id]@ == self@[id],
            decreases ids.len() - i,
        {
            let id: u16 = ids[i];
            assert(ids@.contains(id));
            let ghost before = by_id@;
            if let Some(m) = self.by_id.get(&id) {
                by_id.insert(id, copy_measurement(m));
            }
            proof {
                let (old_ids, new_ids) = (ids@.take(i as int), ids@.take(i + 1));
                assert(new_ids =~= old_ids.push(id));
                assert forall|x: u16| #[trigger] by_id@.contains_key(x) <==> new_ids.contains(x) by {
                    if old_ids.contains(x) {
                        let k = choose|k: int| 0 <= k < old_ids.len() && old_ids[k] == x;
                        assert(new_ids[k] == x);
                    }
                    assert(new_ids[i as int] == id);
                }
            }
            i = i + 1;
        }
        assert(ids@.take(i as int) =~= ids@);
        assert(measurements_view(by_id@) =~= self@);
        Measurements { by_id }
    }
}

/// Resolved column positions of the table.
struct ColumnIndex {
    arg: usize,
    id: usize,
    result_name: usize,
    info: usize,
    unit: usize,
    datentyp: usize,
    mul: usize,
    div: usize,
    add: usize,
    sg_adr: usize,
    service: usize,
}

impl View for ColumnIndex {
    type V = ColumnIndexView;

    closed spec fn view(&self) -> ColumnIndexView {
        ColumnIndexView {
            arg: self.arg as int,
            id: self.id as int,
            result_name: self.result_name as int,
            info: self.info as int,
            unit: self.unit as int,
            datentyp: self.datentyp as int,
            mul: self.mul as int,
            div: self.div as int,
            add: self.add as int,
            sg_adr: self.sg_adr as int,
            service: self.service as int,
        }
    }
}

impl ColumnIndex {
    /// Resolve column positions by header name, or `None` if a needed one is absent.
    fn resolve(columns: &[String]) -> (r: Option<ColumnIndex>)
        ensures
            columns_in(crate::sgbd::prg::row_view(columns@)) == (match r {
                Some(c) => Some(c@),
                None => None,
            }),
    {
        let arg = position_of(columns, "ARG");
        let id = position_of(columns, "ID");
        let result_name = position_of(columns, "RESULTNAME");
        let info = position_of(columns, "INFO");
        let unit = position_of(columns, "EINHEIT");
        let datentyp = position_of(columns, "DATENTYP");
        let mul = position_of(columns, "MUL");
        let div = position_of(columns, "DIV");
        let add = position_of(columns, "ADD");
        let sg_adr = position_of(columns, "SG_ADR");
        let service = position_of(columns, "SERVICE");
        match (arg, id, result_name, info, unit) {
            (Some(arg), Some(id), Some(result_name), Some(info), Some(unit)) => match (
                datentyp,
                mul,
                div,
                add,
                sg_adr,
                service,
            ) {
                (
                    Some(datentyp),
                    Some(mul),
                    Some(div),
                    Some(add),
                    Some(sg_adr),
                    Some(service),
                ) => Some(
                    ColumnIndex {
                        arg,
                        id,
                        result_name,
                        info,
                        unit,
                        datentyp,
                        mul,
                        div,
                        add,
                        sg_adr,
                        service,
                    },
                ),
                _ => None,
            },
            _ => None,
        }
    }
}

/// The cell at `i`, or an empty text.
pub fn cell_text(row: &[String], i: usize) -> (r: String)
    ensures
        r@ == cell_or_empty(crate::sgbd::prg::row_view(row@), i as int),
{
    if i < row.len() {
        row[i].clone()
    } else {
        let empty = String::new();
        assert(empty@ =~= Seq::<char>::empty());
        empty
    }
}

/// The factor in the cell at `i`.
pub fn factor_cell(row: &[String], i: usize) -> (r: Option<Factor>)
    ensures
        opt_factor_view(r) == factor_at(crate::sgbd::prg::row_view(row@), i as int),
{
    if i < row.len() {
        parse_factor(row[i].as_str())
    } else {
        None
    }
}

/// The identifier in the cell at `i`.
pub fn id_cell(row: &[String], i: usize) -> (r: Option<u16>)
    ensures
        id_at(crate::sgbd::prg::row_view(row@), i as int) == (match r {
            Some(v) => Some(v as int),
            None => None,
        }),
{
    if i < row.len() {
        parse_id(row[i].as_str())
    } else {
        None
    }
}

/// Parse one row into a [`Measurement`], or `None` to skip it.
fn parse_row(idx: &ColumnIndex, row: &[String]) -> (r: Option<Measurement>)
    ensures
        measurement_in(idx@, crate::sgbd::prg::row_view(row@)) == (match r {
            Some(m) => Some(m@),
            None => None,
        }),
{
    let id: u16 = match id_cell(row, idx.id) {
        Some(id) => id,
        None => {
            return None;
        },
    };
    if idx.datentyp >= row.len() {
        return None;
    }
    let datatype = match DataType::from_datentyp(row[idx.datentyp].as_str()) {
        Some(d) => d,
        None => {
            return None;
        },
    };
    let mul = match factor_cell(row, idx.mul) {
        Some(f) => f,
        None => {
            return None;
        },
    };
    let div = match factor_cell(row, idx.div) {
        Some(f) => f,
        None => {
            return None;
        },
    };
    let add = match factor_cell(row, idx.add) {
        Some(f) => f,
        None => {
            return None;
        },
    };
    Some(
        Measurement {
            arg: cell_text(row, idx.arg),
            id,
            result_name: cell_text(row, idx.result_name),
            description: cell_text(row, idx.info),
            unit: cell_text(row, idx.unit),
            datatype,
            mul,
            div,
            add,
            sg_adr: cell_text(row, idx.sg_adr),
            service: cell_text(row, idx.service),
        },
    )
}

/// The ids of the measurements, ascending.
fn sorted_ids(by_id: &HashMap<u16, Measurement>) -> (r: Vec<u16>)
    ensures
        ascending(r@),
        forall|id: u16| #[trigger] r@.contains(id) <==> by_id@.contains_key(id),
{
    let mut out: Vec<u16> = Vec::new();
    let ghost all_keys = vstd::std_specs::iter::IteratorSpec::remaining(&by_id.keys()).unref();
    for key in keys: by_id.keys()
        invariant
            all_keys == keys.seq().unref(),
            ascending(out@),
            forall|id: u16| #[trigger] out@.contains(id) <==> all_keys.take(keys.index()).contains(id),
    {
        let id: u16 = *key;
        let mut p: usize = out.len();
        while p > 0 && out[p - 1] > id
            invariant
                p <= out.len(),
                forall|k: int| p <= k < out@.len() ==> #[trigger] out@[k] > id,
            decreases p,
        {
            p = p - 1;
        }
        let ghost before = out@;
        if p == 0 || out[p - 1] != id {
            out.insert(p, id);
            assert(out@ =~= before.insert(p as int, id));
            assert(out@[p as int] == id);
        } else {
            assert(before[p - 1] == id);
        }
        proof {
            assert forall|x: u16| #[trigger] out@.contains(x) <==> before.contains(x) || x == id by {
                if before.contains(x) {
                    let k = choose|k: int| 0 <= k < before.len() && before[k] == x;
                    assert(out@[k] == x || out@[k + 1] == x);
                }
                if out@.contains(x) && x != id {
                    let k = choose|k: int| 0 <= k < out@.len() && out@[k] == x;
                    assert(before[k] == x || before[k - 1] == x);
                }
            }
            let at = keys.index();
            let (old_keys, new_keys) = (all_keys.take(at), all_keys.take(at + 1));
            assert(all_keys[at] == id);
            assert(new_keys =~= old_keys.push(id));
            assert forall|x: u16| #[trigger] new_keys.contains(x) <==> old_keys.contains(x) || x
                == id by {
                if old_keys.contains(x) {
                    let k = choose|k: int| 0 <= k < old_keys.len() && old_keys[k] == x;
                    assert(new_keys[k] == x);
                }
                assert(new_keys[at] == id);
            }
        }
    }
    assert(all_keys.take(all_keys.len() as int) =~= all_keys);
    assert forall|id: u16| #[trigger] out@.contains(id) <==> by_id@.contains_key(id) by {
        assert(all_keys.contains(id) <==> all_keys.to_set().contains(id));
    }
    out
}

impl Measurements {
    /// Build the measurement set from a parsed `SG_FUNKTIONEN` table.
    pub fn from_table(table: &Table) -> (r: Measurements)
        ensures
            r@ == measurements_of(table@),
    {
        let idx = match ColumnIndex::resolve(table.columns.as_slice()) {
            Some(idx) => idx,
            None => {
                return Measurements::default();
            },
        };
        let ghost rows = table@.rows;
        let mut by_id: HashMap<u16, Measurement> = HashMap::new();
        let mut i: usize = 0;
        assert(measurements_view(by_id@) =~= measurements_of_rows(idx@, rows.take(0)));
        while i < table.rows.len()
            invariant
                i <= table.rows.len(),
                rows == table@.rows,
                measurements_view(by_id@) == measurements_of_rows(idx@, rows.take(i as int)),
            decreases table.rows.len() - i,
        {
            proof {
                assert(rows[i as int] == crate::sgbd::prg::row_view(table.rows@[i as int]@));
                assert(rows.take(i + 1).drop_last() =~= rows.take(i as int));
            }
            let ghost before = measurements_view(by_id@);
            if let Some(m) = parse_row(&idx, table.rows[i].as_slice()) {
                let ghost view = m@;
                if !by_id.contains_key(&m.id) {
                    by_id.insert(m.id, m);
                    assert(measurements_view(by_id@) =~= before.insert(view.id, view));
                }
            }
            i = i + 1;
        }
        assert(rows.take(i as int) =~= rows);
        proof {
            law_the_first_row_of_an_id_is_kept(idx@, rows, 0);
        }
        Measurements { by_id }
    }

    /// Build from a container, or `None` when it has no `SG_FUNKTIONEN` table.
    pub fn from_prg(prg: &Prg) -> (r: Option<Measurements>)
        ensures
            match r {
                Some(m) => exists|i: int|
                    0 <= i < prg@.len() && (#[trigger] prg@[i]).name == "SG_FUNKTIONEN"@ && m@
                        == measurements_of(prg@[i]) && forall|j: int|
                        0 <= j < i ==> (#[trigger] prg@[j]).name != "SG_FUNKTIONEN"@,
                None => forall|j: int|
                    0 <= j < prg@.len() ==> (#[trigger] prg@[j]).name != "SG_FUNKTIONEN"@,
            },
    {
        match prg.table("SG_FUNKTIONEN") {
            Some(table) => Some(Measurements::from_table(table)),
            None => None,
        }
    }

    /// The measurement with internal id `id`, if known.
    pub fn get(&self, id: u16) -> (r: Option<&Measurement>)
        ensures
            match r {
                Some(m) => self@.contains_key(id) && m@ == self@[id],
                None => !self@.contains_key(id),
            },
    {
        self.by_id.get(&id)
    }

    /// Every measurement in the set, sorted by internal id.
    pub fn all(&self) -> (r: Vec<&Measurement>)
        ensures
            refs_view(r@) == listing(self@),
            by_id(refs_view(r@)),
    {
        proof {
            use_type_invariant(self);
            lemma_listed_ascends(self@, 0);
        }
        let ids = sorted_ids(&self.by_id);
        let mut out: Vec<&Measurement> = Vec::new();
        let mut i: usize = 0;
        while i < ids.len()
            invariant
                i <= ids.len(),
                forall|id: u16| #[trigger] ids@.contains(id) <==> self.by_id@.contains_key(id),
                refs_view(out@) == Seq::new(i as nat, |k: int| self@[ids@[k]]),
            decreases ids.len() - i,
        {
            let id: u16 = ids[i];
            assert(ids@.contains(id));
            let ghost before = refs_view(out@);
            if let Some(m) = self.by_id.get(&id) {
                out.push(m);
                assert(refs_view(out@) =~= before.push(m@));
            }
            assert(refs_view(out@) =~= Seq::new((i + 1) as nat, |k: int| self@[ids@[k]]));
            i = i + 1;
        }
        proof {
            lemma_listed(self@, ids@, 0, 0);
            assert(refs_view(out@) =~= listing(self@));
        }
        out
    }

    /// Find measurements named `name` (trimmed, case-folded, exact).
    ///
    /// A measurement matches when `name` equals its short id, its result name, or its description
    /// under [`fold_for_match`]; the `-` placeholder and empty fields never match. All fields rank
    /// equally: names are not unique, so every match is returned, sorted by id, and which one is
    /// meant is the caller's call. An empty `name` matches nothing.
    pub fn find_by_name(&self, name: &str) -> (r: Vec<&Measurement>)
        ensures
            refs_view(r@) == named(listing(self@), name@),
            by_id(refs_view(r@)),
    {
        proof {
            use_type_invariant(self);
            law_found_measurements_are_ordered_and_unique(self@, name@);
        }
        let query = fold_for_match(name);
        let mut out: Vec<&Measurement> = Vec::new();
        if query.as_str().is_empty() {
            assert(refs_view(out@) =~= Seq::<MeasurementView>::empty());
            return out;
        }
        let all = self.all();
        let ghost list = listing(self@);
        let mut i: usize = 0;
        assert(refs_view(out@) =~= going_by(list.take(0), query@));
        while i < all.len()
            invariant
                i <= all.len(),
                refs_view(all@) == list,
                refs_view(out@) == going_by(list.take(i as int), query@),
            decreases all.len() - i,
        {
            let m = all[i];
            let ghost before = refs_view(out@);
            assert(list.take(i + 1).drop_last() =~= list.take(i as int));
            assert(list.take(i + 1).last() == m@);
            if is_named(m.arg.as_str(), query.as_str()) || is_named(
                m.result_name.as_str(),
                query.as_str(),
            ) || is_named(m.description.as_str(), query.as_str()) {
                out.push(m);
                assert(refs_view(out@) =~= before.push(m@));
            }
            i = i + 1;
        }
        assert(list.take(i as int) =~= list);
        out
    }

    /// The number of measurements in the set.
    pub fn len(&self) -> (r: usize)
        ensures
            r == self@.len(),
    {
        assert(self@.dom() =~= self.by_id@.dom());
        self.by_id.len()
    }

    /// Whether the set has no measurements.
    pub fn is_empty(&self) -> (r: bool)
        ensures
            r == (self@.len() == 0),
    {
        self.len() == 0
    }
}

/// Whether a field is the folded name asked for.
fn is_named(field: &str, query: &str) -> (r: bool)
    ensures
        r == field_matches(field@, query@),
{
    let chars = to_chars(field);
    let t = trim(chars.as_slice());
    if t.len() == 0 || (t.len() == 1 && t[0] == '-') {
        assert(t@.len() == 1 ==> t@ =~= seq!['-']);
        return false;
    }
    assert(t@ != seq!['-']);
    let text = from_chars(t);
    let fold = fold_for_match(text.as_str());
    same_text(fold.as_str(), query)
}

// ---------------------------------------------------------------------------
// Requests
// ---------------------------------------------------------------------------

/// The dynamic data identifier for selective reads.
pub const DYNAMIC_DID: u16 = 0xF303;

/// 1-based start position of the source data in the define request.
pub const SOURCE_POSITION: u8 = 0x01;

/// The requests that read a dynamic measurement: clear the dynamic identifier, define it from the
/// measurement's id at its data type's width, read it.
pub open spec fn read_sequence(id: u16, datatype: DataType) -> Seq<Seq<u8>> {
    seq![
        seq![0x2Cu8, 0x03u8, 0xF3u8, 0x03u8],
        seq![0x2Cu8, 0x01u8, 0xF3u8, 0x03u8] + crate::bytes::be16_bytes(id) + seq![
            0x01u8,
            width_of(datatype) as u8,
        ],
        seq![0x22u8, 0xF3u8, 0x03u8],
    ]
}

/// The views of byte strings.
pub open spec fn requests_view(v: Seq<Vec<u8>>) -> Seq<Seq<u8>> {
    Seq::new(v.len(), |i: int| v[i]@)
}

/// Build the request sequence that reads a dynamic measurement:
/// `2C 03 F3 03`, `2C 01 F3 03 <id> 01 <width>`, `22 F3 03`.
///
/// Only for a [`Measurement::is_dynamic`] measurement; a static one is read directly by its id.
pub fn build_read_request(measurement: &Measurement) -> (r: Vec<Vec<u8>>)
    ensures
        requests_view(r@) == read_sequence(measurement@.id, measurement@.datatype),
{
    let size: u8 = measurement.datatype.width() as u8;
    let clear = clear_dynamic_data_identifier(DYNAMIC_DID);
    let define = define_dynamic_data_by_identifier(
        DYNAMIC_DID,
        measurement.id,
        SOURCE_POSITION,
        size,
    );
    let read = read_data_by_identifier(DYNAMIC_DID);
    let out: Vec<Vec<u8>> = vec![clear, define, read];
    proof {
        let expected = read_sequence(measurement@.id, measurement@.datatype);
        assert(out@[0]@ =~= expected[0]);
        assert(out@[1]@ =~= expected[1]);
        assert(out@[2]@ =~= expected[2]);
        assert(requests_view(out@) =~= expected);
    }
    out
}

// ---------------------------------------------------------------------------
// What the measurements amount to
// ---------------------------------------------------------------------------

proof fn lemma_type_names()
    ensures
        "unsigned char"@.len() == 13,
        "unsigned int"@.len() == 12,
        "unsigned long"@.len() == 13,
        "motorola float"@.len() == 14,
        "unsigned char"@ != "unsigned long"@,
{
    reveal_strlit("unsigned char");
    reveal_strlit("unsigned int");
    reveal_strlit("unsigned long");
    reveal_strlit("motorola float");
    assert("unsigned char"@[9] != "unsigned long"@[9]);
}

/// A type name fixes how many bytes are read and as what: a `char` one byte, an `int` two, a `long`
/// four, all big-endian, and a float four bytes of bits. A value that is cut is none, and bytes
/// behind it change nothing.
pub proof fn law_a_type_reads_its_big_endian_number(s: Seq<char>, raw: Seq<u8>)
    ensures
        ({
            let t = crate::text::trimmed(s);
            let read = match datatype_named(s) {
                Some(d) => number_in(d, raw),
                None => None,
            };
            &&& (t == "unsigned char"@ ==> read == (if raw.len() >= 1 {
                Some(RawNumber::Unsigned(raw[0] as u64))
            } else {
                None
            }))
            &&& (t == "unsigned int"@ ==> read == (if raw.len() >= 2 {
                Some(RawNumber::Unsigned((raw[0] * 0x100 + raw[1]) as u64))
            } else {
                None
            }))
            &&& (t == "unsigned long"@ ==> read == (if raw.len() >= 4 {
                Some(
                    RawNumber::Unsigned(
                        (raw[0] * 0x100_0000 + raw[1] * 0x1_0000 + raw[2] * 0x100 + raw[3]) as u64,
                    ),
                )
            } else {
                None
            }))
            &&& (t == "motorola float"@ ==> read == (if raw.len() >= 4 {
                Some(
                    RawNumber::FloatBits(
                        (raw[0] * 0x100_0000 + raw[1] * 0x1_0000 + raw[2] * 0x100 + raw[3]) as u32,
                    ),
                )
            } else {
                None
            }))
            &&& (datatype_named(s) is Some ==> t == "unsigned char"@ || t == "unsigned int"@ || t
                == "unsigned long"@ || t == "motorola float"@)
        }),
{
    lemma_type_names();
}

/// A factor cell is blank if it holds nothing or a dash, a number if it writes one, and else no
/// factor; a number is kept as it is written.
pub proof fn law_a_factor_is_blank_or_a_number(s: Seq<char>)
    ensures
        ({
            let t = crate::text::trimmed(s);
            &&& (factor_in(s) == Some(FactorView::Blank) <==> t.len() == 0 || t == seq!['-'])
            &&& (factor_in(s) matches Some(FactorView::Number(n)) ==> n == t
                && crate::text::float_text(t))
            &&& (t.len() > 0 && t != seq!['-'] && crate::text::float_text(t) ==> factor_in(s)
                is Some)
        }),
{
}

/// The columns of a measurement table are found by their names; without one of them there are
/// none.
pub proof fn law_measurement_columns_are_found_by_name(columns: Seq<Seq<char>>)
    ensures
        columns_in(columns) is Some <==> columns.contains("ARG"@) && columns.contains("ID"@)
            && columns.contains("RESULTNAME"@) && columns.contains("INFO"@) && columns.contains(
            "EINHEIT"@,
        ) && columns.contains("DATENTYP"@) && columns.contains("MUL"@) && columns.contains("DIV"@)
            && columns.contains("ADD"@) && columns.contains("SG_ADR"@) && columns.contains(
            "SERVICE"@,
        ),
        columns_in(columns) matches Some(c) ==> {
            &&& 0 <= c.arg < columns.len() && columns[c.arg] == "ARG"@
            &&& 0 <= c.id < columns.len() && columns[c.id] == "ID"@
            &&& 0 <= c.result_name < columns.len() && columns[c.result_name] == "RESULTNAME"@
            &&& 0 <= c.info < columns.len() && columns[c.info] == "INFO"@
            &&& 0 <= c.unit < columns.len() && columns[c.unit] == "EINHEIT"@
            &&& 0 <= c.datentyp < columns.len() && columns[c.datentyp] == "DATENTYP"@
            &&& 0 <= c.mul < columns.len() && columns[c.mul] == "MUL"@
            &&& 0 <= c.div < columns.len() && columns[c.div] == "DIV"@
            &&& 0 <= c.add < columns.len() && columns[c.add] == "ADD"@
            &&& 0 <= c.sg_adr < columns.len() && columns[c.sg_adr] == "SG_ADR"@
            &&& 0 <= c.service < columns.len() && columns[c.service] == "SERVICE"@
        },
{
    crate::text::law_a_position_is_the_first_occurrence(columns, "ARG"@);
    crate::text::law_a_position_is_the_first_occurrence(columns, "ID"@);
    crate::text::law_a_position_is_the_first_occurrence(columns, "RESULTNAME"@);
    crate::text::law_a_position_is_the_first_occurrence(columns, "INFO"@);
    crate::text::law_a_position_is_the_first_occurrence(columns, "EINHEIT"@);
    crate::text::law_a_position_is_the_first_occurrence(columns, "DATENTYP"@);
    crate::text::law_a_position_is_the_first_occurrence(columns, "MUL"@);
    crate::text::law_a_position_is_the_first_occurrence(columns, "DIV"@);
    crate::text::law_a_position_is_the_first_occurrence(columns, "ADD"@);
    crate::text::law_a_position_is_the_first_occurrence(columns, "SG_ADR"@);
    crate::text::law_a_position_is_the_first_occurrence(columns, "SERVICE"@);
}

/// A row is a measurement if and only if its identifier, type and factors can be read, and the
/// measurement is what its cells say.
pub proof fn law_a_row_measures_what_its_cells_say(c: ColumnIndexView, row: Seq<Seq<char>>)
    requires
        0 <= c.arg < row.len(),
        0 <= c.id < row.len(),
        0 <= c.result_name < row.len(),
        0 <= c.info < row.len(),
        0 <= c.unit < row.len(),
        0 <= c.datentyp < row.len(),
        0 <= c.mul < row.len(),
        0 <= c.div < row.len(),
        0 <= c.add < row.len(),
        0 <= c.sg_adr < row.len(),
        0 <= c.service < row.len(),
    ensures
        measurement_in(c, row) is Some <==> crate::text::hex_cell_value(row[c.id], 0xFFFF) is Some
            && datatype_named(row[c.datentyp]) is Some && factor_in(row[c.mul]) is Some
            && factor_in(row[c.div]) is Some && factor_in(row[c.add]) is Some,
        measurement_in(c, row) matches Some(m) ==> {
            &&& Some(m.id as int) == crate::text::hex_cell_value(row[c.id], 0xFFFF)
            &&& m.arg == row[c.arg]
            &&& m.result_name == row[c.result_name]
            &&& m.description == row[c.info]
            &&& m.unit == row[c.unit]
            &&& Some(m.datatype) == datatype_named(row[c.datentyp])
            &&& Some(m.mul) == factor_in(row[c.mul])
            &&& Some(m.div) == factor_in(row[c.div])
            &&& Some(m.add) == factor_in(row[c.add])
            &&& m.sg_adr == row[c.sg_adr]
            &&& m.service == row[c.service]
        },
{
    crate::text::lemma_numbers_are_not_negative(
        crate::text::without_hex_prefix(crate::text::trimmed(row[c.id])),
        16,
        0xFFFF,
    );
}

/// Every id that a table gives is there with the first row that gives it, and no other id is.
pub proof fn law_a_table_measures_its_first_rows(
    table: crate::sgbd::prg::TableView,
    c: ColumnIndexView,
    id: u16,
    k: int,
)
    requires
        columns_in(table.columns) == Some(c),
        0 <= k <= table.rows.len(),
        forall|j: int|
            0 <= j < k ==> !(measurement_in(c, #[trigger] table.rows[j]) matches Some(m) && m.id
                == id),
        k < table.rows.len() ==> (measurement_in(c, table.rows[k]) matches Some(m) && m.id == id),
    ensures
        measurements_of(table).contains_key(id) <==> k < table.rows.len(),
        k < table.rows.len() ==> Some(measurements_of(table)[id]) == measurement_in(
            c,
            table.rows[k],
        ),
{
    law_the_first_row_of_an_id_is_kept(c, table.rows, id);
    lemma_first_row(c, table.rows, id, k);
}

proof fn lemma_first_row(c: ColumnIndexView, rows: Seq<Seq<Seq<char>>>, id: u16, k: int)
    requires
        0 <= k <= rows.len(),
        forall|j: int|
            0 <= j < k ==> !(measurement_in(c, #[trigger] rows[j]) matches Some(m) && m.id == id),
        k < rows.len() ==> (measurement_in(c, rows[k]) matches Some(m) && m.id == id),
    ensures
        first_row_with(c, rows, id) == (if k < rows.len() {
            measurement_in(c, rows[k])
        } else {
            None
        }),
    decreases rows.len(),
{
    if rows.len() > 0 {
        let short = rows.drop_last();
        let n = if k < short.len() {
            k
        } else {
            short.len() as int
        };
        assert forall|j: int| 0 <= j < n implies !(measurement_in(
            c,
            #[trigger] short[j],
        ) matches Some(m) && m.id == id) by {
            assert(short[j] == rows[j]);
        }
        if n < short.len() {
            assert(short[n] == rows[n]);
        }
        lemma_first_row(c, short, id, n);
        if k == rows.len() {
            assert(!(measurement_in(c, rows[rows.len() - 1]) matches Some(m) && m.id == id));
        }
    }
}

/// A measurement is found by its short id, by its result name and by its description, each unless
/// it is empty or a dash, and by nothing else.
pub proof fn law_a_measurement_goes_by_its_three_names(m: MeasurementView, query: Seq<char>)
    ensures
        ({
            let is_it = |field: Seq<char>|
                {
                    &&& crate::text::trimmed(field).len() > 0
                    &&& crate::text::trimmed(field) != seq!['-']
                    &&& folded(crate::text::trimmed(field)) == query
                };
            goes_by(m, query) <==> is_it(m.arg) || is_it(m.result_name) || is_it(m.description)
        }),
{
}

/// Folding writes every `ß` as `ss` and leaves every other character of the lower-cased, trimmed
/// name as it is.
pub proof fn law_only_the_sharp_s_is_rewritten(front: Seq<char>, c: char)
    ensures
        without_sharp_s(Seq::<char>::empty()).len() == 0,
        c == '\u{DF}' ==> without_sharp_s(front.push(c)) == without_sharp_s(front) + seq!['s', 's'],
        c != '\u{DF}' ==> without_sharp_s(front.push(c)) == without_sharp_s(front).push(c),
        folded(front) == without_sharp_s(lowered(crate::text::trimmed(front))),
{
    assert(front.push(c).drop_last() =~= front);
}

/// The name of a measurement is its description, unless that is empty or a dash.
pub proof fn law_a_measurement_is_named_by_its_description(m: MeasurementView)
    ensures
        m.description.len() > 0 && m.description != seq!['-'] ==> name_in(m) == m.description,
        m.description.len() == 0 || m.description == seq!['-'] ==> name_in(m) == m.result_name,
{
}

/// A measurement is dynamic if and only if one of its services, cut at the semicolons, is `2C`.
pub proof fn law_a_dynamic_measurement_lists_the_service(parts: Seq<Seq<char>>)
    requires
        parts.len() > 0,
        forall|i: int| 0 <= i < parts.len() ==> !(#[trigger] parts[i]).contains(';'),
    ensures
        lists_dynamic(crate::text::join(parts, seq![';'])) <==> exists|i: int|
            0 <= i < parts.len() && crate::text::trimmed(#[trigger] parts[i]) == seq!['2', 'C'],
{
    crate::text::law_splitting_undoes_joining(parts, ';');
    let service = crate::text::join(parts, seq![';']);
    assert(crate::text::split(service, ';') == parts);
    if exists|i: int|
        0 <= i < parts.len() && crate::text::trimmed(#[trigger] parts[i]) == seq!['2', 'C'] {
        let i = choose|i: int|
            0 <= i < parts.len() && crate::text::trimmed(#[trigger] parts[i]) == seq!['2', 'C'];
        assert(crate::text::trimmed(crate::text::split(service, ';')[i]) == seq!['2', 'C']);
    }
    if lists_dynamic(service) {
        let i = choose|i: int|
            0 <= i < crate::text::split(service, ';').len() && crate::text::trimmed(
                #[trigger] crate::text::split(service, ';')[i],
            ) == seq!['2', 'C'];
        assert(crate::text::trimmed(parts[i]) == seq!['2', 'C']);
    }
}

/// A dynamic measurement is read in three requests: the dynamic identifier is cleared, defined as
/// the measurement's own bytes from the first on, as many as its type takes, and read.
pub proof fn law_a_dynamic_read_clears_defines_and_reads(id: u16, datatype: DataType)
    ensures
        ({
            let requests = read_sequence(id, datatype);
            &&& requests.len() == 3
            &&& requests[0] == seq![0x2Cu8, 0x03u8, 0xF3u8, 0x03u8]
            &&& requests[1] == seq![
                0x2Cu8,
                0x01u8,
                0xF3u8,
                0x03u8,
                (id / 0x100) as u8,
                (id % 0x100) as u8,
                0x01u8,
                if datatype == DataType::U8 {
                    1u8
                } else if datatype == DataType::U16 {
                    2u8
                } else {
                    4u8
                },
            ]
            &&& requests[2] == crate::uds::read_request(0xF303)
        }),
{
    let requests = read_sequence(id, datatype);
    crate::uds::law_a_read_names_its_identifier(0xF303);
    assert(requests[1] =~= seq![
        0x2Cu8,
        0x01u8,
        0xF3u8,
        0x03u8,
        (id / 0x100) as u8,
        (id % 0x100) as u8,
        0x01u8,
        if datatype == DataType::U8 {
            1u8
        } else if datatype == DataType::U16 {
            2u8
        } else {
            4u8
        },
    ]);
}

/// The model of a value says of each field what the field holds, and a list is modelled item by
/// item, in order.
pub proof fn law_a_model_shows_what_its_value_holds(
    measurement: Measurement,
    requests: Seq<Vec<u8>>,
)
    ensures
        measurement@.arg == measurement.arg@,
        measurement@.id == measurement.id,
        measurement@.result_name == measurement.result_name@,
        measurement@.description == measurement.description@,
        measurement@.unit == measurement.unit@,
        measurement@.datatype == measurement.datatype,
        measurement@.mul == measurement.mul@,
        measurement@.div == measurement.div@,
        measurement@.add == measurement.add@,
        measurement@.sg_adr == measurement.sg_adr@,
        measurement@.service == measurement.service@,
        requests_view(requests).len() == requests.len(),
        forall|i: int|
            0 <= i < requests.len() ==> #[trigger] requests_view(requests)[i] == requests[i]@,
{
}

} // verus!
