//! Service functions (resets, adaptations, actuations, calibrations) from an ECU's tables.
//!
//! An ECU's *control* functions stand in four tables, each parsed here into one discoverable
//! [`ServiceFunction`] catalog: `CBSKENNUNG` (maintenance counter resets), `LERNWERTE_RUECK`
//! (learned-value resets), `STELLER` (physical actuators) and `ABGLEICH` (calibration writes).
//! Alongside those, a small curated set of standalone statistic resets is offered when the ECU
//! actually defines the job.
//!
//! Every entry carries a [`Category`], a [`Risk`], and a [`Derivation`] status. An unparsable row
//! is skipped, never fatal, so an ECU without these tables yields an empty catalog. This is the
//! *discovery* layer; execution lives elsewhere.
use vstd::prelude::*;
use crate::sgbd::prg::{Prg, Table};
use crate::text::{parse_hex_cell, position_of, same_text, to_chars, trim_text};
use crate::uds::{read_data_by_identifier, write_data_by_identifier};

verus! {

/// Physical blast radius of a service function: the execution-gating axis.
#[derive(Debug, Clone, Copy, PartialEq, Eq, Structural)]
pub enum Risk {
    /// State-only: a counter or adaptation reset; no component moves, reversible.
    Low,
    /// Moves a physical component, or alters combustion or safety behavior.
    High,
}

/// The class of operation a service function performs.
#[derive(Debug, Clone, Copy, PartialEq, Eq, Structural)]
pub enum Category {
    /// Condition-Based-Service maintenance counter reset (`CBSKENNUNG`).
    CbsReset,
    /// Learned-value reset (`LERNWERTE_RUECK`).
    LearnedValueReset,
    /// Diagnostic statistic reset (standalone job).
    StatisticReset,
    /// Physical actuator control (`STELLER`): drives a component.
    ActuatorControl,
    /// Sensor or injector calibration write (`ABGLEICH`).
    Calibration,
}

/// The blast radius of a category: resets are low, actuation and calibration are high.
pub open spec fn risk_of(category: Category) -> Risk {
    match category {
        Category::CbsReset => Risk::Low,
        Category::LearnedValueReset => Risk::Low,
        Category::StatisticReset => Risk::Low,
        Category::ActuatorControl => Risk::High,
        Category::Calibration => Risk::High,
    }
}

impl Category {
    /// The blast-radius [`Risk`] of this category.
    pub fn risk(self) -> (r: Risk)
        ensures
            r == risk_of(self),
    {
        match self {
            Category::CbsReset | Category::LearnedValueReset | Category::StatisticReset => {
                Risk::Low
            },
            Category::ActuatorControl | Category::Calibration => Risk::High,
        }
    }
}

/// How a service function's execution frame was obtained: the trust axis for running it.
///
/// A derived frame is read from the ECU's bytecode but not confirmed on a car. A function whose
/// frame is not derivable is discovery-only.
#[derive(Debug, Clone, PartialEq, Eq)]
pub enum Derivation {
    /// The request was derived from disassembly; unconfirmed.
    Derived {
        /// The derived request bytes (no transport framing).
        request: Vec<u8>,
        /// Where the frame was read: job name, bytecode address, and container.
        cite: &'static str,
    },
    /// No frame is derivable offline.
    NotDerivable {
        /// Why the frame cannot be derived offline.
        reason: &'static str,
    },
}

/// What a [`Derivation`] holds.
#[verifier::ext_equal]
pub enum DerivationView {
    Derived { request: Seq<u8>, cite: &'static str },
    NotDerivable { reason: &'static str },
}

impl View for Derivation {
    type V = DerivationView;

    open spec fn view(&self) -> DerivationView {
        match *self {
            Derivation::Derived { request, cite } => DerivationView::Derived {
                request: request@,
                cite,
            },
            Derivation::NotDerivable { reason } => DerivationView::NotDerivable { reason },
        }
    }
}

/// The request bytes of a derivation.
pub open spec fn request_in(d: DerivationView) -> Option<Seq<u8>> {
    match d {
        DerivationView::Derived { request, .. } => Some(request),
        DerivationView::NotDerivable { .. } => None,
    }
}

impl Derivation {
    /// Whether a derived (though still unconfirmed) execution frame is available.
    pub fn is_derived(&self) -> (r: bool)
        ensures
            r == (self@ is Derived),
    {
        match self {
            Derivation::Derived { .. } => true,
            Derivation::NotDerivable { .. } => false,
        }
    }

    /// The derived request bytes, or `None` when the frame is not derivable.
    pub fn request(&self) -> (r: Option<&[u8]>)
        ensures
            request_in(self@) == (match r {
                Some(bytes) => Some(bytes@),
                None => None,
            }),
    {
        match self {
            Derivation::Derived { request, .. } => Some(request.as_slice()),
            Derivation::NotDerivable { .. } => None,
        }
    }

    /// The disassembly citation for a derived frame, or `None`.
    pub fn citation(&self) -> (r: Option<&'static str>)
        ensures
            r == (match self@ {
                DerivationView::Derived { cite, .. } => Some(cite),
                DerivationView::NotDerivable { .. } => None,
            }),
    {
        match self {
            Derivation::Derived { cite, .. } => Some(*cite),
            Derivation::NotDerivable { .. } => None,
        }
    }

    /// The reason a frame is not derivable offline, or `None` for a derived one.
    pub fn reason(&self) -> (r: Option<&'static str>)
        ensures
            r == (match self@ {
                DerivationView::Derived { .. } => None,
                DerivationView::NotDerivable { reason } => Some(reason),
            }),
    {
        match self {
            Derivation::Derived { .. } => None,
            Derivation::NotDerivable { reason } => Some(*reason),
        }
    }

    /// A short status word for display.
    pub fn status(&self) -> (r: &'static str)
        ensures
            r == (if self@ is Derived {
                "derived-unconfirmed"
            } else {
                "frame-not-derivable"
            }),
    {
        match self {
            Derivation::Derived { .. } => "derived-unconfirmed",
            Derivation::NotDerivable { .. } => "frame-not-derivable",
        }
    }
}

/// One discoverable service function: what it is, its class, and its frame status.
#[derive(Debug, Clone, PartialEq, Eq)]
pub struct ServiceFunction {
    /// Short code, e.g. `Oel`, `IBSRE`, `DRO`, `MSA2Hist`.
    pub label: String,
    /// Human description, e.g. `Motoroel`.
    pub name: String,
    /// The class of operation.
    pub category: Category,
    /// The identifier the frame targets: the counter id, a data or routine identifier, else the
    /// table's local identifier.
    pub id: u16,
    /// Whether an execution frame was derived offline, or not.
    pub derivation: Derivation,
}

/// What a [`ServiceFunction`] holds.
#[verifier::ext_equal]
pub struct ServiceFunctionView {
    pub label: Seq<char>,
    pub name: Seq<char>,
    pub category: Category,
    pub id: u16,
    pub derivation: DerivationView,
}

impl View for ServiceFunction {
    type V = ServiceFunctionView;

    open spec fn view(&self) -> ServiceFunctionView {
        ServiceFunctionView {
            label: self.label@,
            name: self.name@,
            category: self.category,
            id: self.id,
            derivation: self.derivation@,
        }
    }
}

/// The views of functions.
pub open spec fn functions_view(v: Seq<ServiceFunction>) -> Seq<ServiceFunctionView> {
    Seq::new(v.len(), |i: int| v[i]@)
}

impl ServiceFunction {
    /// The blast-radius [`Risk`] of this function (from its [`Category`]).
    pub fn risk(&self) -> (r: Risk)
        ensures
            r == risk_of(self@.category),
    {
        self.category.risk()
    }

    /// Whether a derived (unconfirmed) execution frame is available for this function.
    pub fn is_derived(&self) -> (r: bool)
        ensures
            r == (self@.derivation is Derived),
    {
        self.derivation.is_derived()
    }

    /// The derived request bytes, or `None` when the frame is not derivable.
    pub fn request(&self) -> (r: Option<&[u8]>)
        ensures
            request_in(self@.derivation) == (match r {
                Some(bytes) => Some(bytes@),
                None => None,
            }),
    {
        self.derivation.request()
    }
}

// ---------------------------------------------------------------------------
// Frames
// ---------------------------------------------------------------------------

/// The data identifier a maintenance record is written to and read back from.
pub const CBS_DID: u16 = 0x1001;

/// Leading record-count byte of a maintenance write: always one record.
pub const CBS_RECORD_COUNT: u8 = 0x01;

/// The record bytes that follow the component id in a reset write: availability 100 %, service
/// count "+1", remaining distance "no change", then don't-care fields.
pub const CBS_RESET_RECORD_TAIL: [u8; 10] = [
    0x64,
    0x1F,
    0x80,
    0x00,
    0x0F,
    0xFF,
    0x0F,
    0x3F,
    0xFF,
    0x00,
];

/// The request that resets maintenance counter `cbs_id`.
pub open spec fn cbs_reset(cbs_id: u8) -> Seq<u8> {
    seq![
        0x2Eu8,
        0x10u8,
        0x01u8,
        0x01u8,
        cbs_id,
        0x64u8,
        0x1Fu8,
        0x80u8,
        0x00u8,
        0x0Fu8,
        0xFFu8,
        0x0Fu8,
        0x3Fu8,
        0xFFu8,
        0x00u8,
    ]
}

/// Build the request that resets maintenance counter `cbs_id` (e.g. `0x01` is engine oil):
/// `2E 10 01 01 <cbs_id> 64 1F 80 00 0F FF 0F 3F FF 00`.
pub fn build_cbs_reset_request(cbs_id: u8) -> (r: Vec<u8>)
    ensures
        r@ == cbs_reset(cbs_id),
{
    let mut data: Vec<u8> = Vec::new();
    data.push(CBS_RECORD_COUNT);
    data.push(cbs_id);
    let tail = CBS_RESET_RECORD_TAIL;
    crate::bytes::push_bytes(&mut data, tail.as_slice());
    let out = write_data_by_identifier(CBS_DID, data.as_slice());
    assert(out@ =~= cbs_reset(cbs_id));
    out
}

/// Build the request that reads the maintenance block back: `22 10 01`.
pub fn build_cbs_read_request() -> (r: Vec<u8>)
    ensures
        r@ == seq![0x22u8, 0x10u8, 0x01u8],
{
    let out = read_data_by_identifier(CBS_DID);
    assert(out@ =~= seq![0x22u8, 0x10u8, 0x01u8]);
    out
}

/// Why the learned-value resets cannot be derived offline.
pub const LERNWERTE_REASON: &'static str = "LERNWERTE_RUECKSETZEN is read-modify-write (reads 22 5F D3, then computes the 2E 5F 8A write from the live ECU response) with LID-width branching and per-LID special cases \u{2014} needs an on-car capture or a BEST/2 interpreter";

/// Why actuator control cannot be derived offline (and is refused regardless).
pub const STELLER_REASON: &'static str = "STEUERN_SELECTIV is 0x2F IO-control whose value is scaled from the STELLER table at run time \u{2014} physical actuation (refused); the frame needs a BEST/2 interpreter";

/// Why calibration writes cannot be derived offline (and are refused regardless).
pub const CALIBRATION_REASON: &'static str = "ABGLEICH_PROGRAMMIEREN_* writes externally-sourced calibration / injector codes \u{2014} refused; not derivable offline";

/// Where the maintenance reset frame was read.
pub const CBS_CITE: &'static str = "CBS_RESET @0x969BD (d72n47a0)";

/// Why a maintenance counter with a wide id has no frame.
pub const CBS_WIDE_REASON: &'static str = "CBS counter id exceeds the single-byte CBS_RESET record field";

/// The derivation for maintenance counter `id`.
pub open spec fn cbs_derivation_of(id: u16) -> DerivationView {
    if id <= 0xFF {
        DerivationView::Derived { request: cbs_reset(id as u8), cite: CBS_CITE }
    } else {
        DerivationView::NotDerivable { reason: CBS_WIDE_REASON }
    }
}

/// The derivation for maintenance counter `id`: the derived write frame, or why there is none
/// when the id does not fit the single-byte record field.
pub fn cbs_derivation(id: u16) -> (r: Derivation)
    ensures
        r@ == cbs_derivation_of(id),
{
    if id <= 0xFF {
        Derivation::Derived { request: build_cbs_reset_request(id as u8), cite: CBS_CITE }
    } else {
        Derivation::NotDerivable { reason: CBS_WIDE_REASON }
    }
}

// ---------------------------------------------------------------------------
// Standalone resets
// ---------------------------------------------------------------------------

/// How many standalone resets are known.
pub const DERIVED_RESET_COUNT: usize = 4;

/// The job whose presence gates the standalone reset `i`.
pub open spec fn derived_job(i: int) -> &'static str {
    if i == 0 {
        "STEUERN_MSA2HISTORIERESET"
    } else if i == 1 {
        "STEUERN_PM_HISTOGRAM_RESET"
    } else if i == 2 {
        "STEUERN_DAROL_RESET"
    } else {
        "STEUERN_LLKETA_RESET"
    }
}

/// The standalone reset `i`: a single fixed telegram read from its job.
pub open spec fn derived_reset(i: int) -> ServiceFunctionView {
    if i == 0 {
        ServiceFunctionView {
            label: "MSA2Hist"@,
            name: "MSA2 history table + ring-buffer reset"@,
            category: Category::StatisticReset,
            id: 0x5F84,
            derivation: DerivationView::Derived {
                request: seq![0x2Eu8, 0x5Fu8, 0x84u8],
                cite: "STEUERN_MSA2HISTORIERESET @0x128A75 (d72n47a0)",
            },
        }
    } else if i == 1 {
        ServiceFunctionView {
            label: "PMHist"@,
            name: "Power-management histogram reset"@,
            category: Category::StatisticReset,
            id: 0x5FF5,
            derivation: DerivationView::Derived {
                request: seq![0x2Eu8, 0x5Fu8, 0xF5u8, 0x04u8],
                cite: "STEUERN_PM_HISTOGRAM_RESET @0x16DD4E (d72n47a0)",
            },
        }
    } else if i == 2 {
        ServiceFunctionView {
            label: "DAROL"@,
            name: "DAROL load-collective data reset"@,
            category: Category::StatisticReset,
            id: 0x6200,
            derivation: DerivationView::Derived {
                request: seq![0x2Eu8, 0x62u8, 0x00u8, 0x01u8],
                cite: "STEUERN_DAROL_RESET @0x1BBF27 (d72n47a0)",
            },
        }
    } else {
        ServiceFunctionView {
            label: "LLKETA"@,
            name: "LLK-ETA statistic reset (charge-air-cooler)"@,
            category: Category::StatisticReset,
            id: 0xF065,
            derivation: DerivationView::Derived {
                request: seq![0x31u8, 0x01u8, 0xF0u8, 0x65u8],
                cite: "STEUERN_LLKETA_RESET @0x12D0CC (d72n47a0)",
            },
        }
    }
}

/// The standalone resets among the first `n` whose job is present.
pub open spec fn offered_resets(present: Seq<bool>, n: nat) -> Seq<ServiceFunctionView>
    decreases n,
{
    if n == 0 {
        Seq::<ServiceFunctionView>::empty()
    } else {
        let before = offered_resets(present, (n - 1) as nat);
        if present[n - 1] {
            before.push(derived_reset(n - 1))
        } else {
            before
        }
    }
}

/// The job of the standalone reset `i`.
fn reset_job(i: usize) -> (r: &'static str)
    requires
        i < DERIVED_RESET_COUNT,
    ensures
        r == derived_job(i as int),
{
    if i == 0 {
        "STEUERN_MSA2HISTORIERESET"
    } else if i == 1 {
        "STEUERN_PM_HISTOGRAM_RESET"
    } else if i == 2 {
        "STEUERN_DAROL_RESET"
    } else {
        "STEUERN_LLKETA_RESET"
    }
}

/// A statistic reset with a derived frame.
fn statistic_reset(label: &str, name: &str, id: u16, request: Vec<u8>, cite: &'static str) -> (r:
    ServiceFunction)
    ensures
        r@ == (ServiceFunctionView {
            label: label@,
            name: name@,
            category: Category::StatisticReset,
            id,
            derivation: DerivationView::Derived { request: request@, cite },
        }),
{
    ServiceFunction {
        label: label.to_owned(),
        name: name.to_owned(),
        category: Category::StatisticReset,
        id,
        derivation: Derivation::Derived { request, cite },
    }
}

/// The standalone reset `i`.
fn reset_function(i: usize) -> (r: ServiceFunction)
    requires
        i < DERIVED_RESET_COUNT,
    ensures
        r@ == derived_reset(i as int),
{
    let r = if i == 0 {
        let request: Vec<u8> = vec![0x2E, 0x5F, 0x84];
        statistic_reset(
            "MSA2Hist",
            "MSA2 history table + ring-buffer reset",
            0x5F84,
            request,
            "STEUERN_MSA2HISTORIERESET @0x128A75 (d72n47a0)",
        )
    } else if i == 1 {
        let request: Vec<u8> = vec![0x2E, 0x5F, 0xF5, 0x04];
        statistic_reset(
            "PMHist",
            "Power-management histogram reset",
            0x5FF5,
            request,
            "STEUERN_PM_HISTOGRAM_RESET @0x16DD4E (d72n47a0)",
        )
    } else if i == 2 {
        let request: Vec<u8> = vec![0x2E, 0x62, 0x00, 0x01];
        statistic_reset(
            "DAROL",
            "DAROL load-collective data reset",
            0x6200,
            request,
            "STEUERN_DAROL_RESET @0x1BBF27 (d72n47a0)",
        )
    } else {
        let request: Vec<u8> = vec![0x31, 0x01, 0xF0, 0x65];
        statistic_reset(
            "LLKETA",
            "LLK-ETA statistic reset (charge-air-cooler)",
            0xF065,
            request,
            "STEUERN_LLKETA_RESET @0x12D0CC (d72n47a0)",
        )
    };
    assert(r@ =~~= derived_reset(i as int));
    r
}

// ---------------------------------------------------------------------------
// Control tables
// ---------------------------------------------------------------------------

/// The trimmed cell at `i`, or an empty text.
pub open spec fn cell_text(row: Seq<Seq<char>>, i: int) -> Seq<char> {
    if i < row.len() {
        crate::text::trimmed(row[i])
    } else {
        Seq::<char>::empty()
    }
}

/// Whether a label is a blank or separator placeholder: only dashes, if anything.
pub open spec fn blank_label(label: Seq<char>) -> bool {
    forall|i: int| 0 <= i < label.len() ==> #[trigger] label[i] == '-'
}

/// The identifier in a cell.
pub open spec fn id_in(row: Seq<Seq<char>>, i: int) -> Option<int> {
    if i < row.len() {
        crate::text::hex_cell_value(row[i], 0xFFFF)
    } else {
        None
    }
}

/// Where a control table keeps what the catalog needs.
pub struct ControlColumns {
    pub label: int,
    pub text: int,
    pub id: int,
}

/// The function of one row: skipped without a parsable identifier or with a placeholder label.
/// Without a `reason` against it the frame is the maintenance reset's.
pub open spec fn function_of_row(
    row: Seq<Seq<char>>,
    columns: ControlColumns,
    category: Category,
    reason: Option<&'static str>,
) -> Option<ServiceFunctionView> {
    match id_in(row, columns.id) {
        Some(id) => if blank_label(cell_text(row, columns.label)) {
            None
        } else {
            Some(
                ServiceFunctionView {
                    label: cell_text(row, columns.label),
                    name: cell_text(row, columns.text),
                    category,
                    id: id as u16,
                    derivation: match reason {
                        Some(reason) => DerivationView::NotDerivable { reason },
                        None => cbs_derivation_of(id as u16),
                    },
                },
            )
        },
        None => None,
    }
}

/// The functions of rows, in order.
pub open spec fn functions_of_rows(
    rows: Seq<Seq<Seq<char>>>,
    columns: ControlColumns,
    category: Category,
    reason: Option<&'static str>,
) -> Seq<ServiceFunctionView>
    decreases rows.len(),
{
    if rows.len() == 0 {
        Seq::<ServiceFunctionView>::empty()
    } else {
        let before = functions_of_rows(rows.drop_last(), columns, category, reason);
        match function_of_row(rows.last(), columns, category, reason) {
            Some(f) => before.push(f),
            None => before,
        }
    }
}

/// The columns of those names, if the table has all three.
pub open spec fn control_columns(
    table: crate::sgbd::prg::TableView,
    label: Seq<char>,
    text: Seq<char>,
    id: Seq<char>,
) -> Option<ControlColumns> {
    match (
        crate::text::position(table.columns, label),
        crate::text::position(table.columns, text),
        crate::text::position(table.columns, id),
    ) {
        (Some(label), Some(text), Some(id)) => Some(ControlColumns { label, text, id }),
        _ => None,
    }
}

/// The maintenance resets that a table lists.
pub open spec fn cbs_functions(table: crate::sgbd::prg::TableView) -> Seq<ServiceFunctionView> {
    match control_columns(table, "CBS_K"@, "CBS_K_TEXT"@, "NR"@) {
        Some(columns) => functions_of_rows(table.rows, columns, Category::CbsReset, None),
        None => Seq::<ServiceFunctionView>::empty(),
    }
}

/// The functions that a labelled control table lists.
pub open spec fn labelled_functions(
    table: crate::sgbd::prg::TableView,
    category: Category,
    reason: &'static str,
) -> Seq<ServiceFunctionView> {
    match control_columns(table, "LABEL"@, "TEXT"@, "LID"@) {
        Some(columns) => functions_of_rows(table.rows, columns, category, Some(reason)),
        None => Seq::<ServiceFunctionView>::empty(),
    }
}

/// The functions that one table lists; a table that is no control table lists none.
pub open spec fn table_functions(table: crate::sgbd::prg::TableView) -> Seq<ServiceFunctionView> {
    if table.name == "CBSKENNUNG"@ {
        cbs_functions(table)
    } else if table.name == "LERNWERTE_RUECK"@ {
        labelled_functions(table, Category::LearnedValueReset, LERNWERTE_REASON)
    } else if table.name == "STELLER"@ {
        labelled_functions(table, Category::ActuatorControl, STELLER_REASON)
    } else if table.name == "ABGLEICH"@ {
        labelled_functions(table, Category::Calibration, CALIBRATION_REASON)
    } else {
        Seq::<ServiceFunctionView>::empty()
    }
}

/// The functions that the control tables list, table by table.
pub open spec fn control_functions(tables: Seq<crate::sgbd::prg::TableView>) -> Seq<
    ServiceFunctionView,
>
    decreases tables.len(),
{
    if tables.len() == 0 {
        Seq::<ServiceFunctionView>::empty()
    } else {
        control_functions(tables.drop_last()) + table_functions(tables.last())
    }
}

/// Whether a label is a blank or separator placeholder.
pub fn is_blank(label: &str) -> (r: bool)
    ensures
        r == blank_label(label@),
{
    let chars = to_chars(label);
    let mut i: usize = 0;
    while i < chars.len()
        invariant
            i <= chars.len(),
            chars@ == label@,
            forall|k: int| 0 <= k < i ==> #[trigger] label@[k] == '-',
        decreases chars.len() - i,
    {
        if chars[i] != '-' {
            assert(label@[i as int] != '-');
            return false;
        }
        i = i + 1;
    }
    true
}

/// The trimmed cell at column index `i`, or an empty text if absent.
pub fn cell(row: &[String], i: usize) -> (r: String)
    ensures
        r@ == cell_text(crate::sgbd::prg::row_view(row@), i as int),
{
    if i < row.len() {
        trim_text(row[i].as_str())
    } else {
        let empty = String::new();
        assert(empty@ =~= Seq::<char>::empty());
        empty
    }
}

/// The index of column `name` in `table`'s header, if present.
pub fn column(table: &Table, name: &str) -> (r: Option<usize>)
    ensures
        crate::text::position(table@.columns, name@) == (match r {
            Some(i) => Some(i as int),
            None => None,
        }),
{
    position_of(table.columns.as_slice(), name)
}

/// Reads a hex identifier such as `0x602A` (with or without `0x`).
///
/// `None` for a blank or out-of-range cell.
pub fn parse_hex(s: &str) -> (r: Option<u16>)
    ensures
        crate::text::hex_cell_value(s@, 0xFFFF) == (match r {
            Some(v) => Some(v as int),
            None => None,
        }),
{
    match parse_hex_cell(s, 0xFFFF) {
        Some(v) => {
            assert(v <= 0xFFFF) by {
                lemma_hex_cell_bound(s@, 0xFFFF);
            }
            Some(v as u16)
        },
        None => None,
    }
}

proof fn lemma_hex_cell_bound(s: Seq<char>, max: int)
    ensures
        crate::text::hex_cell_value(s, max) matches Some(v) ==> v <= max,
{
}

/// Append the functions of a control table's rows.
fn parse_rows(
    table: &Table,
    label_name: &str,
    text_name: &str,
    id_name: &str,
    category: Category,
    reason: Option<&'static str>,
    out: &mut Vec<ServiceFunction>,
)
    ensures
        functions_view(final(out)@) == functions_view(old(out)@) + (match control_columns(
            table@,
            label_name@,
            text_name@,
            id_name@,
        ) {
            Some(columns) => functions_of_rows(table@.rows, columns, category, reason),
            None => Seq::<ServiceFunctionView>::empty(),
        }),
{
    let ghost start = functions_view(out@);
    assert(start + Seq::<ServiceFunctionView>::empty() =~= start);
    let label: usize = match column(table, label_name) {
        Some(i) => i,
        None => {
            return;
        },
    };
    let text: usize = match column(table, text_name) {
        Some(i) => i,
        None => {
            return;
        },
    };
    let id: usize = match column(table, id_name) {
        Some(i) => i,
        None => {
            return;
        },
    };
    let ghost columns = ControlColumns { label: label as int, text: text as int, id: id as int };
    let ghost rows = table@.rows;
    let mut i: usize = 0;
    while i < table.rows.len()
        invariant
            i <= table.rows.len(),
            rows == table@.rows,
            columns == (ControlColumns { label: label as int, text: text as int, id: id as int }),
            functions_view(out@) == start + functions_of_rows(
                rows.take(i as int),
                columns,
                category,
                reason,
            ),
        decreases table.rows.len() - i,
    {
        let row = table.rows[i].as_slice();
        let ghost before = functions_view(out@);
        proof {
            assert(rows[i as int] == crate::sgbd::prg::row_view(row@));
            assert(rows.take(i + 1).drop_last() =~= rows.take(i as int));
        }
        let found: Option<u16> = if id < row.len() {
            parse_hex(row[id].as_str())
        } else {
            None
        };
        if let Some(n) = found {
            let label_cell = cell(row, label);
            if !is_blank(label_cell.as_str()) {
                let derivation = match reason {
                    Some(reason) => Derivation::NotDerivable { reason },
                    None => cbs_derivation(n),
                };
                let function = ServiceFunction {
                    label: label_cell,
                    name: cell(row, text),
                    category,
                    id: n,
                    derivation,
                };
                let ghost view = function@;
                assert(function_of_row(rows[i as int], columns, category, reason) == Some(view));
                out.push(function);
                assert(functions_view(out@) =~= before.push(view));
                assert(before.push(view) =~= start + functions_of_rows(
                    rows.take(i as int),
                    columns,
                    category,
                    reason,
                ).push(view));
            }
        }
        i = i + 1;
    }
    assert(rows.take(i as int) =~= rows);
}

/// Parse `CBSKENNUNG` (`NR, CBS_K, CBS_K_TEXT`) into [`Category::CbsReset`] entries.
pub fn parse_cbs(table: &Table, out: &mut Vec<ServiceFunction>)
    ensures
        functions_view(final(out)@) == functions_view(old(out)@) + cbs_functions(table@),
{
    parse_rows(table, "CBS_K", "CBS_K_TEXT", "NR", Category::CbsReset, None, out);
}

/// Parse a `LABEL, TEXT, …, LID`-shaped control table into `category` entries.
///
/// Each entry has no derivable frame, for `reason`. A row without a parsable `LID` is skipped.
pub fn parse_labelled(
    table: &Table,
    category: Category,
    reason: &'static str,
    out: &mut Vec<ServiceFunction>,
)
    ensures
        functions_view(final(out)@) == functions_view(old(out)@) + labelled_functions(
            table@,
            category,
            reason,
        ),
{
    parse_rows(table, "LABEL", "TEXT", "LID", category, Some(reason), out);
}

/// The functions that the control tables list.
fn parse_control(tables: &[Table]) -> (r: Vec<ServiceFunction>)
    ensures
        functions_view(r@) == control_functions(crate::sgbd::prg::tables_view(tables@)),
{
    let ghost views = crate::sgbd::prg::tables_view(tables@);
    let mut functions: Vec<ServiceFunction> = Vec::new();
    let mut i: usize = 0;
    assert(functions_view(functions@) =~= control_functions(views.take(0)));
    while i < tables.len()
        invariant
            i <= tables.len(),
            views == crate::sgbd::prg::tables_view(tables@),
            functions_view(functions@) == control_functions(views.take(i as int)),
        decreases tables.len() - i,
    {
        let table = &tables[i];
        let name = table.name.as_str();
        let ghost before = functions_view(functions@);
        proof {
            assert(views.take(i + 1).drop_last() =~= views.take(i as int));
            assert(views.take(i + 1).last() == table@);
            assert(before + Seq::<ServiceFunctionView>::empty() =~= before);
        }
        if same_text(name, "CBSKENNUNG") {
            parse_cbs(table, &mut functions);
        } else if same_text(name, "LERNWERTE_RUECK") {
            parse_labelled(table, Category::LearnedValueReset, LERNWERTE_REASON, &mut functions);
        } else if same_text(name, "STELLER") {
            parse_labelled(table, Category::ActuatorControl, STELLER_REASON, &mut functions);
        } else if same_text(name, "ABGLEICH") {
            parse_labelled(table, Category::Calibration, CALIBRATION_REASON, &mut functions);
        }
        i = i + 1;
    }
    assert(views.take(i as int) =~= views);
    functions
}

// ---------------------------------------------------------------------------
// The catalog
// ---------------------------------------------------------------------------

/// The control-side service functions of one ECU, in discovery order.
#[derive(Debug, Clone)]
pub struct ServiceFunctions {
    functions: Vec<ServiceFunction>,
}

impl View for ServiceFunctions {
    type V = Seq<ServiceFunctionView>;

    closed spec fn view(&self) -> Seq<ServiceFunctionView> {
        functions_view(self.functions@)
    }
}

impl Default for ServiceFunctions {
    /// A catalog without functions.
    fn default() -> (r: ServiceFunctions)
        ensures
            r@ == Seq::<ServiceFunctionView>::empty(),
    {
        let r = ServiceFunctions { functions: Vec::new() };
        assert(r@ =~= Seq::<ServiceFunctionView>::empty());
        r
    }
}

/// Whether `present` are possible answers of `has_job` on the standalone resets' jobs.
pub open spec fn answers<F: Fn(&str) -> bool>(has_job: F, present: Seq<bool>) -> bool {
    &&& present.len() == DERIVED_RESET_COUNT
    &&& forall|i: int|
        0 <= i < DERIVED_RESET_COUNT ==> call_ensures(
            has_job,
            (derived_job(i),),
            #[trigger] present[i],
        )
}

/// The catalog of an ECU: its control tables' functions, then the standalone resets on offer.
pub open spec fn catalog_of(
    tables: Seq<crate::sgbd::prg::TableView>,
    present: Seq<bool>,
) -> Seq<ServiceFunctionView> {
    control_functions(tables) + offered_resets(present, DERIVED_RESET_COUNT as nat)
}

/// The functions of one category, in order.
pub open spec fn of_category(functions: Seq<ServiceFunctionView>, category: Category) -> Seq<
    ServiceFunctionView,
>
    decreases functions.len(),
{
    if functions.len() == 0 {
        Seq::<ServiceFunctionView>::empty()
    } else {
        let before = of_category(functions.drop_last(), category);
        if functions.last().category == category {
            before.push(functions.last())
        } else {
            before
        }
    }
}

/// The views of borrowed functions.
pub open spec fn refs_view(v: Seq<&ServiceFunction>) -> Seq<ServiceFunctionView> {
    Seq::new(v.len(), |i: int| v[i]@)
}

/// Which of the standalone resets' jobs are listed in `jobs`.
pub open spec fn listed(jobs: Seq<String>) -> Seq<bool> {
    Seq::new(
        DERIVED_RESET_COUNT as nat,
        |i: int| crate::text::position(crate::text::text_views(jobs), derived_job(i)@) is Some,
    )
}

/// The answers of `has_job` on the standalone resets' jobs.
fn ask_jobs<F: Fn(&str) -> bool>(has_job: F) -> (r: Vec<bool>)
    requires
        forall|name: &str| call_requires(has_job, (name,)),
    ensures
        answers(has_job, r@),
{
    let mut present: Vec<bool> = Vec::new();
    let mut i: usize = 0;
    while i < DERIVED_RESET_COUNT
        invariant
            i <= DERIVED_RESET_COUNT,
            present@.len() == i,
            forall|name: &str| call_requires(has_job, (name,)),
            forall|k: int|
                0 <= k < i ==> call_ensures(has_job, (derived_job(k),), #[trigger] present@[k]),
        decreases DERIVED_RESET_COUNT - i,
    {
        let answer = has_job(reset_job(i));
        present.push(answer);
        i = i + 1;
    }
    present
}

impl ServiceFunctions {
    /// The catalog with the standalone resets that are present.
    fn with_resets(tables: &[Table], present: &[bool]) -> (r: ServiceFunctions)
        requires
            present@.len() == DERIVED_RESET_COUNT,
        ensures
            r@ == catalog_of(crate::sgbd::prg::tables_view(tables@), present@),
    {
        let mut functions = parse_control(tables);
        let ghost control = functions_view(functions@);
        let mut i: usize = 0;
        assert(control + offered_resets(present@, 0) =~= control);
        while i < DERIVED_RESET_COUNT
            invariant
                i <= DERIVED_RESET_COUNT,
                present@.len() == DERIVED_RESET_COUNT,
                functions_view(functions@) == control + offered_resets(present@, i as nat),
            decreases DERIVED_RESET_COUNT - i,
        {
            if present[i] {
                let ghost before = functions_view(functions@);
                let reset = reset_function(i);
                let ghost view = reset@;
                functions.push(reset);
                assert(functions_view(functions@) =~= before.push(view));
                assert(before.push(view) =~= control + offered_resets(present@, i as nat).push(
                    view,
                ));
            }
            i = i + 1;
        }
        ServiceFunctions { functions }
    }

    /// Build the catalog from a parsed container: its control tables, and the standalone resets
    /// whose job is among the container's `jobs`.
    pub fn from_prg(prg: &Prg, jobs: &[String]) -> (r: ServiceFunctions)
        ensures
            r@ == catalog_of(prg@, listed(jobs@)),
    {
        let mut present: Vec<bool> = Vec::new();
        let mut i: usize = 0;
        while i < DERIVED_RESET_COUNT
            invariant
                i <= DERIVED_RESET_COUNT,
                present@ == listed(jobs@).take(i as int),
            decreases DERIVED_RESET_COUNT - i,
        {
            present.push(position_of(jobs, reset_job(i)).is_some());
            assert(present@ =~= listed(jobs@).take(i + 1));
            i = i + 1;
        }
        assert(listed(jobs@).take(i as int) =~= listed(jobs@));
        ServiceFunctions::with_resets(prg.tables(), present.as_slice())
    }

    /// Build the catalog from control tables only (no standalone resets).
    ///
    /// Tables are read in the order given. Any table that is not a recognized control table is
    /// ignored.
    pub fn from_tables(tables: &[Table]) -> (r: ServiceFunctions)
        ensures
            r@ == control_functions(crate::sgbd::prg::tables_view(tables@)),
    {
        ServiceFunctions { functions: parse_control(tables) }
    }

    /// Build the catalog from `tables` plus a job-presence predicate.
    ///
    /// `has_job(name)` tells whether the ECU defines a job; it gates the standalone resets, so
    /// that a reset is offered only for an ECU that actually has it.
    pub fn from_tables_and_jobs<F: Fn(&str) -> bool>(tables: &[Table], has_job: F) -> (r:
        ServiceFunctions)
        requires
            forall|name: &str| call_requires(has_job, (name,)),
        ensures
            exists|present: Seq<bool>| #[trigger]
                answers(has_job, present) && r@ == catalog_of(
                    crate::sgbd::prg::tables_view(tables@),
                    present,
                ),
    {
        let present = ask_jobs(has_job);
        ServiceFunctions::with_resets(tables, present.as_slice())
    }

    /// All service functions, in discovery order.
    pub fn all(&self) -> (r: &[ServiceFunction])
        ensures
            functions_view(r@) == self@,
    {
        self.functions.as_slice()
    }

    /// The first function whose `label` matches exactly, if any.
    pub fn by_label(&self, label: &str) -> (r: Option<&ServiceFunction>)
        ensures
            match r {
                Some(f) => exists|i: int|
                    0 <= i < self@.len() && #[trigger] self@[i] == f@ && f@.label == label@
                        && forall|j: int| 0 <= j < i ==> (#[trigger] self@[j]).label != label@,
                None => forall|j: int|
                    0 <= j < self@.len() ==> (#[trigger] self@[j]).label != label@,
            },
    {
        let mut i: usize = 0;
        while i < self.functions.len()
            invariant
                i <= self.functions.len(),
                forall|j: int| 0 <= j < i ==> (#[trigger] self@[j]).label != label@,
            decreases self.functions.len() - i,
        {
            assert(self@[i as int] == self.functions@[i as int]@);
            if same_text(self.functions[i].label.as_str(), label) {
                return Some(&self.functions[i]);
            }
            i = i + 1;
        }
        None
    }

    /// The functions of one [`Category`], in discovery order.
    pub fn by_category(&self, category: Category) -> (r: Vec<&ServiceFunction>)
        ensures
            refs_view(r@) == of_category(self@, category),
    {
        let mut out: Vec<&ServiceFunction> = Vec::new();
        let mut i: usize = 0;
        assert(refs_view(out@) =~= of_category(self@.take(0), category));
        while i < self.functions.len()
            invariant
                i <= self.functions.len(),
                refs_view(out@) == of_category(self@.take(i as int), category),
            decreases self.functions.len() - i,
        {
            let function = &self.functions[i];
            let ghost before = refs_view(out@);
            assert(self@.take(i + 1).drop_last() =~= self@.take(i as int));
            if function.category == category {
                out.push(function);
                assert(refs_view(out@) =~= before.push(function@));
            }
            i = i + 1;
        }
        assert(self@.take(i as int) =~= self@);
        out
    }

    /// The number of discovered service functions.
    pub fn len(&self) -> (r: usize)
        ensures
            r == self@.len(),
    {
        self.functions.len()
    }

    /// Whether the catalog is empty.
    pub fn is_empty(&self) -> (r: bool)
        ensures
            r == (self@.len() == 0),
    {
        self.functions.len() == 0
    }
}

// ---------------------------------------------------------------------------
// Laws
// ---------------------------------------------------------------------------

proof fn lemma_joined_tables(
    first: Seq<crate::sgbd::prg::TableView>,
    second: Seq<crate::sgbd::prg::TableView>,
)
    ensures
        control_functions(first + second) == control_functions(first) + control_functions(second),
    decreases second.len(),
{
    let joined = first + second;
    if second.len() == 0 {
        assert(joined =~= first);
        assert(control_functions(first) + control_functions(second) =~= control_functions(first));
    } else {
        lemma_joined_tables(first, second.drop_last());
        assert(joined.drop_last() =~= first + second.drop_last());
        assert(control_functions(joined) =~= control_functions(first) + control_functions(second));
    }
}

/// The catalog of joined tables is the joined catalogs: the first tables' functions, then those
/// of the second, and the standalone resets once, at the end.
pub proof fn law_joined_tables_join_their_functions(
    first: Seq<crate::sgbd::prg::TableView>,
    second: Seq<crate::sgbd::prg::TableView>,
    present: Seq<bool>,
)
    ensures
        control_functions(first + second) == control_functions(first) + control_functions(second),
        catalog_of(first + second, present) == control_functions(first) + catalog_of(
            second,
            present,
        ),
{
    lemma_joined_tables(first, second);
    assert(catalog_of(first + second, present) =~= control_functions(first) + catalog_of(
        second,
        present,
    ));
}

/// What every function in a catalog has: a label that is no placeholder, and no frame unless its
/// category is low-risk.
pub open spec fn sound(f: ServiceFunctionView) -> bool {
    &&& !blank_label(f.label)
    &&& f.derivation is Derived ==> risk_of(f.category) == Risk::Low
}

proof fn lemma_rows_are_sound(
    rows: Seq<Seq<Seq<char>>>,
    columns: ControlColumns,
    category: Category,
    reason: Option<&'static str>,
)
    requires
        reason is None ==> category == Category::CbsReset,
    ensures
        forall|i: int|
            0 <= i < functions_of_rows(rows, columns, category, reason).len() ==> sound(
                #[trigger] functions_of_rows(rows, columns, category, reason)[i],
            ),
    decreases rows.len(),
{
    if rows.len() > 0 {
        lemma_rows_are_sound(rows.drop_last(), columns, category, reason);
        let before = functions_of_rows(rows.drop_last(), columns, category, reason);
        let after = functions_of_rows(rows, columns, category, reason);
        assert forall|i: int| 0 <= i < after.len() implies sound(#[trigger] after[i]) by {
            if i < before.len() {
                assert(after[i] == before[i]);
            }
        }
    }
}

proof fn lemma_control_is_sound(tables: Seq<crate::sgbd::prg::TableView>)
    ensures
        forall|i: int|
            0 <= i < control_functions(tables).len() ==> sound(
                #[trigger] control_functions(tables)[i],
            ),
    decreases tables.len(),
{
    if tables.len() > 0 {
        lemma_control_is_sound(tables.drop_last());
        let table = tables.last();
        let first = control_functions(tables.drop_last());
        let own = table_functions(table);
        if let Some(columns) = control_columns(table, "CBS_K"@, "CBS_K_TEXT"@, "NR"@) {
            lemma_rows_are_sound(table.rows, columns, Category::CbsReset, None);
        }
        if let Some(columns) = control_columns(table, "LABEL"@, "TEXT"@, "LID"@) {
            lemma_rows_are_sound(
                table.rows,
                columns,
                Category::LearnedValueReset,
                Some(LERNWERTE_REASON),
            );
            lemma_rows_are_sound(
                table.rows,
                columns,
                Category::ActuatorControl,
                Some(STELLER_REASON),
            );
            lemma_rows_are_sound(
                table.rows,
                columns,
                Category::Calibration,
                Some(CALIBRATION_REASON),
            );
        }
        assert forall|i: int| 0 <= i < (first + own).len() implies sound(
            #[trigger] (first + own)[i],
        ) by {
            if i < first.len() {
                assert(sound(first[i]));
            } else {
                assert(sound(own[i - first.len()]));
            }
        }
    }
}

/// Whatever the tables and jobs, a function with an execution frame is low-risk, and no separator
/// row ever becomes a function.
pub proof fn law_only_low_risk_functions_have_a_frame(
    tables: Seq<crate::sgbd::prg::TableView>,
    present: Seq<bool>,
)
    ensures
        forall|i: int|
            0 <= i < catalog_of(tables, present).len() ==> sound(
                #[trigger] catalog_of(tables, present)[i],
            ),
{
    lemma_control_is_sound(tables);
    reveal_strlit("MSA2Hist");
    reveal_strlit("PMHist");
    reveal_strlit("DAROL");
    reveal_strlit("LLKETA");
    reveal_with_fuel(offered_resets, 5);
    assert("MSA2Hist"@[0] != '-' && "PMHist"@[0] != '-' && "DAROL"@[0] != '-' && "LLKETA"@[0]
        != '-');
    let control = control_functions(tables);
    let resets = offered_resets(present, DERIVED_RESET_COUNT as nat);
    assert forall|i: int| 0 <= i < resets.len() implies sound(#[trigger] resets[i]) by {
        assert(sound(derived_reset(0)) && sound(derived_reset(1)) && sound(derived_reset(2))
            && sound(derived_reset(3)));
    }
    assert forall|i: int| 0 <= i < (control + resets).len() implies sound(
        #[trigger] (control + resets)[i],
    ) by {
        if i < control.len() {
            assert(sound(control[i]));
        } else {
            assert(sound(resets[i - control.len()]));
        }
    }
}

/// Every function that a table lists has the category of that table, and so its risk:
/// maintenance and learned-value resets move nothing, actuations and calibrations do.
pub proof fn law_every_function_has_the_category_of_its_table(
    table: crate::sgbd::prg::TableView,
    i: int,
)
    requires
        0 <= i < table_functions(table).len(),
    ensures
        table.name == "CBSKENNUNG"@ ==> table_functions(table)[i].category == Category::CbsReset
            && risk_of(table_functions(table)[i].category) == Risk::Low,
        table.name == "LERNWERTE_RUECK"@ ==> table_functions(table)[i].category
            == Category::LearnedValueReset && risk_of(table_functions(table)[i].category)
            == Risk::Low,
        table.name == "STELLER"@ ==> table_functions(table)[i].category == Category::ActuatorControl
            && risk_of(table_functions(table)[i].category) == Risk::High
            && table_functions(table)[i].derivation is NotDerivable,
        table.name == "ABGLEICH"@ ==> table_functions(table)[i].category == Category::Calibration
            && risk_of(table_functions(table)[i].category) == Risk::High
            && table_functions(table)[i].derivation is NotDerivable,
        table.name == "CBSKENNUNG"@ || table.name == "LERNWERTE_RUECK"@ || table.name
            == "STELLER"@ || table.name == "ABGLEICH"@,
{
    lemma_table_names();
    let category = table_functions(table)[i].category;
    if table.name == "CBSKENNUNG"@ {
        let columns = control_columns(table, "CBS_K"@, "CBS_K_TEXT"@, "NR"@)->0;
        lemma_rows_have_a_category(table.rows, columns, Category::CbsReset, None);
    } else {
        let columns = control_columns(table, "LABEL"@, "TEXT"@, "LID"@)->0;
        lemma_rows_have_a_category(
            table.rows,
            columns,
            Category::LearnedValueReset,
            Some(LERNWERTE_REASON),
        );
        lemma_rows_have_a_category(
            table.rows,
            columns,
            Category::ActuatorControl,
            Some(STELLER_REASON),
        );
        lemma_rows_have_a_category(
            table.rows,
            columns,
            Category::Calibration,
            Some(CALIBRATION_REASON),
        );
    }
}

proof fn lemma_table_names()
    ensures
        "CBSKENNUNG"@ != "LERNWERTE_RUECK"@,
        "CBSKENNUNG"@ != "STELLER"@,
        "CBSKENNUNG"@ != "ABGLEICH"@,
        "LERNWERTE_RUECK"@ != "STELLER"@,
        "LERNWERTE_RUECK"@ != "ABGLEICH"@,
        "STELLER"@ != "ABGLEICH"@,
{
    reveal_strlit("CBSKENNUNG");
    reveal_strlit("LERNWERTE_RUECK");
    reveal_strlit("STELLER");
    reveal_strlit("ABGLEICH");
    assert("CBSKENNUNG"@.len() == 10);
    assert("LERNWERTE_RUECK"@.len() == 15);
    assert("STELLER"@.len() == 7);
    assert("ABGLEICH"@.len() == 8);
}

proof fn lemma_rows_have_a_category(
    rows: Seq<Seq<Seq<char>>>,
    columns: ControlColumns,
    category: Category,
    reason: Option<&'static str>,
)
    ensures
        forall|i: int|
            0 <= i < functions_of_rows(rows, columns, category, reason).len() ==> (
            #[trigger] functions_of_rows(rows, columns, category, reason)[i]).category == category
                && (reason is Some ==> functions_of_rows(
                rows,
                columns,
                category,
                reason,
            )[i].derivation is NotDerivable),
    decreases rows.len(),
{
    if rows.len() > 0 {
        lemma_rows_have_a_category(rows.drop_last(), columns, category, reason);
        let before = functions_of_rows(rows.drop_last(), columns, category, reason);
        let all = functions_of_rows(rows, columns, category, reason);
        assert forall|i: int| 0 <= i < all.len() implies (#[trigger] all[i]).category == category
            && (reason is Some ==> all[i].derivation is NotDerivable) by {
            if i < before.len() {
                assert(all[i] == before[i]);
            }
        }
    }
}

/// Where a control table keeps its labels, texts and identifiers.
pub open spec fn stands_at(
    table: crate::sgbd::prg::TableView,
    label: int,
    text: int,
    id: int,
) -> bool {
    &&& 0 <= label < table.columns.len()
    &&& 0 <= text < table.columns.len()
    &&& 0 <= id < table.columns.len()
    &&& forall|j: int, k: int|
        0 <= j < k < table.columns.len() ==> #[trigger] table.columns[j]
            != #[trigger] table.columns[k]
    &&& if table.name == "CBSKENNUNG"@ {
        table.columns[label] == "CBS_K"@ && table.columns[text] == "CBS_K_TEXT"@
            && table.columns[id] == "NR"@
    } else {
        table.columns[label] == "LABEL"@ && table.columns[text] == "TEXT"@ && table.columns[id]
            == "LID"@
    }
}

/// A control table lists its rows one by one, in order: a row more is one function more, with the
/// label, text and identifier of its cells, and nothing more where its label is only dashes or its
/// identifier is no number. A maintenance counter whose number is a byte has the frame of that
/// counter; nothing else in a table has a frame.
pub proof fn law_each_row_of_a_control_table_is_a_function(
    table: crate::sgbd::prg::TableView,
    row: Seq<Seq<char>>,
    label: int,
    text: int,
    id: int,
)
    requires
        table.name == "CBSKENNUNG"@ || table.name == "LERNWERTE_RUECK"@ || table.name
            == "STELLER"@ || table.name == "ABGLEICH"@,
        stands_at(table, label, text, id),
        row.len() == table.columns.len(),
    ensures
        ({
            let listed = table_functions(table);
            let more = table_functions(
                crate::sgbd::prg::TableView { rows: table.rows.push(row), ..table },
            );
            let name = crate::text::trimmed(row[label]);
            let number = crate::text::hex_cell_value(row[id], 0xFFFF);
            &&& table.rows.len() == 0 ==> listed.len() == 0
            &&& more.take(listed.len() as int) == listed
            &&& (number is None || forall|k: int| 0 <= k < name.len() ==> #[trigger] name[k] == '-')
                ==> more == listed
            &&& number is Some && (exists|k: int| 0 <= k < name.len() && #[trigger] name[k] != '-')
                ==> {
                &&& more.len() == listed.len() + 1
                &&& more.last().label == name
                &&& more.last().name == crate::text::trimmed(row[text])
                &&& more.last().id == number->0
                &&& (more.last().derivation is Derived <==> table.name == "CBSKENNUNG"@
                    && number->0 <= 0xFF)
                &&& (more.last().derivation is Derived ==> request_in(more.last().derivation)
                    == Some(cbs_reset(number->0 as u8)))
            }
        }),
{
    lemma_table_names();
    let longer = crate::sgbd::prg::TableView { rows: table.rows.push(row), ..table };
    assert(longer.rows.drop_last() =~= table.rows);
    let (l, t, i) = if table.name == "CBSKENNUNG"@ {
        ("CBS_K"@, "CBS_K_TEXT"@, "NR"@)
    } else {
        ("LABEL"@, "TEXT"@, "LID"@)
    };
    lemma_column_at(table.columns, l, label);
    lemma_column_at(table.columns, t, text);
    lemma_column_at(table.columns, i, id);
    let listed = table_functions(table);
    let more = table_functions(longer);
    assert(more.take(listed.len() as int) =~= listed);
    let number = crate::text::hex_cell_value(row[id], 0xFFFF);
    if number is Some {
        assert(0 <= number->0 <= 0xFFFF) by {
            crate::text::lemma_numbers_are_not_negative(
                crate::text::without_hex_prefix(crate::text::trimmed(row[id])),
                16,
                0xFFFF,
            );
        }
    }
}

proof fn lemma_column_at(columns: Seq<Seq<char>>, name: Seq<char>, i: int)
    requires
        0 <= i < columns.len(),
        columns[i] == name,
        forall|j: int, k: int|
            0 <= j < k < columns.len() ==> #[trigger] columns[j] != #[trigger] columns[k],
    ensures
        crate::text::position(columns, name) == Some(i),
{
    crate::text::law_a_position_is_the_first_occurrence(columns, name);
    assert(columns.contains(name));
    let at = crate::text::position(columns, name)->0;
    if at < i {
        assert(columns[at] != columns[i]);
    }
}

/// A control table without one of its columns lists nothing, and so does any other table.
pub proof fn law_other_tables_list_nothing(table: crate::sgbd::prg::TableView)
    ensures
        table.name == "CBSKENNUNG"@ && !(table.columns.contains("CBS_K"@)
            && table.columns.contains("CBS_K_TEXT"@) && table.columns.contains("NR"@))
            ==> table_functions(table).len() == 0,
        table.name != "CBSKENNUNG"@ && !(table.columns.contains("LABEL"@)
            && table.columns.contains("TEXT"@) && table.columns.contains("LID"@))
            ==> table_functions(table).len() == 0,
        table.name != "CBSKENNUNG"@ && table.name != "LERNWERTE_RUECK"@ && table.name
            != "STELLER"@ && table.name != "ABGLEICH"@ ==> table_functions(table).len() == 0,
{
    crate::text::law_a_position_is_the_first_occurrence(table.columns, "CBS_K"@);
    crate::text::law_a_position_is_the_first_occurrence(table.columns, "CBS_K_TEXT"@);
    crate::text::law_a_position_is_the_first_occurrence(table.columns, "NR"@);
    crate::text::law_a_position_is_the_first_occurrence(table.columns, "LABEL"@);
    crate::text::law_a_position_is_the_first_occurrence(table.columns, "TEXT"@);
    crate::text::law_a_position_is_the_first_occurrence(table.columns, "LID"@);
}

/// A maintenance reset is one write of one record to the maintenance identifier, for the counter
/// asked for; resets of two counters differ in the counter alone.
pub proof fn law_a_maintenance_reset_names_its_counter(a: u8, b: u8)
    ensures
        cbs_reset(a).len() == 15,
        cbs_reset(a).take(4) == seq![0x2Eu8, 0x10u8, 0x01u8, 0x01u8],
        cbs_reset(a)[4] == a,
        cbs_reset(a).skip(5) == seq![
            0x64u8, 0x1Fu8, 0x80u8, 0x00u8, 0x0Fu8, 0xFFu8, 0x0Fu8, 0x3Fu8, 0xFFu8, 0x00u8,
        ],
        cbs_reset(b) == cbs_reset(a).update(4, b),
{
    assert(cbs_reset(a).take(4) =~= seq![0x2Eu8, 0x10u8, 0x01u8, 0x01u8]);
    assert(cbs_reset(a).skip(5) =~= seq![
        0x64u8, 0x1Fu8, 0x80u8, 0x00u8, 0x0Fu8, 0xFFu8, 0x0Fu8, 0x3Fu8, 0xFFu8, 0x00u8,
    ]);
    assert(cbs_reset(b) =~= cbs_reset(a).update(4, b));
}

/// A standalone reset stands in the catalog if and only if its job is present, behind the tables'
/// functions and in the order of the resets.
pub proof fn law_a_standalone_reset_needs_its_job(
    tables: Seq<crate::sgbd::prg::TableView>,
    present: Seq<bool>,
    i: int,
)
    requires
        present.len() == 4,
        0 <= i < 4,
    ensures
        catalog_of(tables, present).take(control_functions(tables).len() as int)
            == control_functions(tables),
        catalog_of(tables, present).skip(control_functions(tables).len() as int).contains(
            derived_reset(i),
        ) <==> present[i],
        catalog_of(tables, present).len() == control_functions(tables).len() + (if present[0] {
            1int
        } else {
            0
        }) + (if present[1] {
            1int
        } else {
            0
        }) + (if present[2] {
            1int
        } else {
            0
        }) + (if present[3] {
            1int
        } else {
            0
        }),
{
    reveal_with_fuel(offered_resets, 5);
    let resets = offered_resets(present, 4);
    let all = catalog_of(tables, present);
    let n = control_functions(tables).len() as int;
    assert(all.take(n) =~= control_functions(tables));
    assert(all.skip(n) =~= resets);
    if present[i] {
        let before = (if i > 0 && present[0] {
            1int
        } else {
            0
        }) + (if i > 1 && present[1] {
            1int
        } else {
            0
        }) + (if i > 2 && present[2] {
            1int
        } else {
            0
        });
        assert(resets[before] == derived_reset(i));
    }
    assert(forall|k: int| 0 <= k < resets.len() ==> (#[trigger] resets[k]).id == 0x5F84 && present[0]
        || resets[k].id == 0x5FF5 && present[1] || resets[k].id == 0x6200 && present[2]
        || resets[k].id == 0xF065 && present[3]);
}

/// Each standalone reset is a statistic reset whose frame was read from the very job that gates
/// it, and addresses the very identifier it is listed under: a write of that identifier, or the
/// start of that routine.
pub proof fn law_a_standalone_reset_addresses_its_identifier(i: int)
    requires
        0 <= i < 4,
    ensures
        derived_reset(i).category == Category::StatisticReset,
        risk_of(derived_reset(i).category) == Risk::Low,
        derived_reset(i).derivation matches DerivationView::Derived { request, cite } && {
            &&& request[0] == 0x2E ==> request.subrange(1, 3) == crate::bytes::be16_bytes(
                derived_reset(i).id,
            )
            &&& request[0] == 0x31 ==> request[1] == 0x01 && request.skip(2)
                == crate::bytes::be16_bytes(derived_reset(i).id)
            &&& request[0] == 0x2E || request[0] == 0x31
            &&& cite@.take(derived_job(i)@.len() as int) == derived_job(i)@
            &&& cite@.len() > derived_job(i)@.len()
        },
{
    let f = derived_reset(i);
    reveal_strlit("STEUERN_MSA2HISTORIERESET");
    reveal_strlit("STEUERN_PM_HISTOGRAM_RESET");
    reveal_strlit("STEUERN_DAROL_RESET");
    reveal_strlit("STEUERN_LLKETA_RESET");
    reveal_strlit("STEUERN_MSA2HISTORIERESET @0x128A75 (d72n47a0)");
    reveal_strlit("STEUERN_PM_HISTOGRAM_RESET @0x16DD4E (d72n47a0)");
    reveal_strlit("STEUERN_DAROL_RESET @0x1BBF27 (d72n47a0)");
    reveal_strlit("STEUERN_LLKETA_RESET @0x12D0CC (d72n47a0)");
    let request = request_in(f.derivation)->0;
    let cite = f.derivation->cite;
    if request[0] == 0x2E {
        assert(request.subrange(1, 3) =~= crate::bytes::be16_bytes(f.id));
    } else {
        assert(request.skip(2) =~= crate::bytes::be16_bytes(f.id));
    }
    assert(cite@.take(derived_job(i)@.len() as int) =~= derived_job(i)@);
}

/// The functions of a category are all of that category and no others, in the catalog's order.
pub proof fn law_a_category_holds_exactly_its_functions(
    functions: Seq<ServiceFunctionView>,
    category: Category,
)
    ensures
        of_category(functions, category) == functions.filter(
            |f: ServiceFunctionView| f.category == category,
        ),
    decreases functions.len(),
{
    reveal(Seq::filter);
    if functions.len() > 0 {
        law_a_category_holds_exactly_its_functions(functions.drop_last(), category);
    }
}

/// A job is present if and only if its name is among the container's jobs.
pub proof fn law_a_job_is_present_where_it_is_listed(jobs: Seq<String>, i: int)
    requires
        0 <= i < 4,
    ensures
        listed(jobs).len() == 4,
        listed(jobs)[i] <==> exists|k: int|
            0 <= k < jobs.len() && (#[trigger] jobs[k])@ == derived_job(i)@,
{
    let names = crate::text::text_views(jobs);
    crate::text::law_a_position_is_the_first_occurrence(names, derived_job(i)@);
    if listed(jobs)[i] {
        let k = choose|k: int| 0 <= k < names.len() && names[k] == derived_job(i)@;
        assert(jobs[k]@ == derived_job(i)@);
    }
    if exists|k: int| 0 <= k < jobs.len() && (#[trigger] jobs[k])@ == derived_job(i)@ {
        let k = choose|k: int| 0 <= k < jobs.len() && (#[trigger] jobs[k])@ == derived_job(i)@;
        assert(names[k] == derived_job(i)@);
    }
}

/// The four standalone resets, each with the job that gates it, its names and its whole telegram.
pub proof fn law_the_standalone_resets_are_four_fixed_telegrams()
    ensures
        [derived_job(0), derived_job(1), derived_job(2), derived_job(3)]@ == seq![
            "STEUERN_MSA2HISTORIERESET",
            "STEUERN_PM_HISTOGRAM_RESET",
            "STEUERN_DAROL_RESET",
            "STEUERN_LLKETA_RESET",
        ],
        request_in(derived_reset(0).derivation) == Some(seq![0x2Eu8, 0x5Fu8, 0x84u8]),
        request_in(derived_reset(1).derivation) == Some(seq![0x2Eu8, 0x5Fu8, 0xF5u8, 0x04u8]),
        request_in(derived_reset(2).derivation) == Some(seq![0x2Eu8, 0x62u8, 0x00u8, 0x01u8]),
        request_in(derived_reset(3).derivation) == Some(seq![0x31u8, 0x01u8, 0xF0u8, 0x65u8]),
        Seq::new(4, |i: int| derived_reset(i).id) == seq![0x5F84u16, 0x5FF5u16, 0x6200u16, 0xF065u16],
        Seq::new(4, |i: int| derived_reset(i).label) == seq![
            "MSA2Hist"@,
            "PMHist"@,
            "DAROL"@,
            "LLKETA"@,
        ],
        Seq::new(4, |i: int| derived_reset(i).name) == seq![
            "MSA2 history table + ring-buffer reset"@,
            "Power-management histogram reset"@,
            "DAROL load-collective data reset"@,
            "LLK-ETA statistic reset (charge-air-cooler)"@,
        ],
        Seq::new(4, |i: int| derived_reset(i).derivation->cite) == seq![
            "STEUERN_MSA2HISTORIERESET @0x128A75 (d72n47a0)",
            "STEUERN_PM_HISTOGRAM_RESET @0x16DD4E (d72n47a0)",
            "STEUERN_DAROL_RESET @0x1BBF27 (d72n47a0)",
            "STEUERN_LLKETA_RESET @0x12D0CC (d72n47a0)",
        ],
{
}

/// The model of a value says of each field what the field holds, and a list is modelled item by
/// item, in order.
pub proof fn law_a_model_shows_what_its_value_holds(
    service_function: ServiceFunction,
    functions: Seq<ServiceFunction>,
)
    ensures
        service_function@.label == service_function.label@,
        service_function@.name == service_function.name@,
        service_function@.category == service_function.category,
        service_function@.id == service_function.id,
        service_function@.derivation == service_function.derivation@,
        functions_view(functions).len() == functions.len(),
        forall|i: int|
            0 <= i < functions.len() ==> #[trigger] functions_view(functions)[i] == functions[i]@,
{
}

/// A maintenance counter has a frame, and says where it was read, exactly where its id fits a byte;
/// a wider one says that it does not fit.
pub proof fn law_a_counter_says_where_its_frame_is_from(id: u16)
    ensures
        id <= 0xFF ==> cbs_derivation_of(id) == (DerivationView::Derived {
            request: cbs_reset(id as u8),
            cite: "CBS_RESET @0x969BD (d72n47a0)",
        }),
        id > 0xFF ==> cbs_derivation_of(id) == (DerivationView::NotDerivable {
            reason: "CBS counter id exceeds the single-byte CBS_RESET record field",
        }),
{
}

} // verus!
