//! Whole-car procedures: reading every ECU's faults, and the whole-vehicle clear sequence.
//!
//! Both walk the car one ECU at a time. The clear is a state change that records each ECU's stored
//! faults before erasing them, and nothing in it aborts: every step is best-effort and its outcome
//! is recorded.
use vstd::prelude::*;
use crate::bytes::{contains_byte, copy_bytes};
use crate::client::error::{copy_error, ClientError};
use crate::client::services::EcuFaultBundle;
use crate::client::supplier::{supplier_clear_jobs, SupplierJob, SupplierJobReport, VehicleComposition};
use crate::uds::{copy_dtcs, Dtc};

verus! {

/// The settle after the terminal-15 cycle, before re-identifying, in milliseconds.
pub const SETTLE_BEFORE_REIDENT_MS: u64 = 500;

/// The settle between the re-identification and the verification read, in milliseconds.
pub const SETTLE_AFTER_REIDENT_MS: u64 = 200;

// ---------------------------------------------------------------------------
// Reading every ECU
// ---------------------------------------------------------------------------

/// One ECU's faults, as read.
#[derive(Debug)]
pub struct EcuFaults {
    /// The diagnostic address.
    pub address: u8,
    /// Every fault the ECU returned, unfiltered.
    pub faults: Vec<Dtc>,
    /// The ECU's info-memory entries.
    pub info: Vec<Dtc>,
    /// Whether the ECU keeps an info memory at all; `false` is the normal case.
    pub info_supported: bool,
    /// Set if reading this ECU failed (the scan continues past it).
    pub error: Option<ClientError>,
}

/// What an [`EcuFaults`] holds.
#[verifier::ext_equal]
pub struct EcuFaultsView {
    pub address: u8,
    pub faults: Seq<Dtc>,
    pub info: Seq<Dtc>,
    pub info_supported: bool,
    pub error: Option<ClientError>,
}

impl View for EcuFaults {
    type V = EcuFaultsView;

    open spec fn view(&self) -> EcuFaultsView {
        EcuFaultsView {
            address: self.address,
            faults: self.faults@,
            info: self.info@,
            info_supported: self.info_supported,
            error: self.error,
        }
    }
}

/// The views of ECUs' faults.
pub open spec fn faults_view(v: Seq<EcuFaults>) -> Seq<EcuFaultsView> {
    Seq::new(v.len(), |i: int| v[i]@)
}

/// What reading an ECU gave.
pub open spec fn entry_of(address: u8, result: Result<EcuFaultBundle, ClientError>) -> EcuFaultsView {
    match result {
        Ok(bundle) => EcuFaultsView {
            address,
            faults: bundle.faults@,
            info: bundle.info@,
            info_supported: bundle.info_supported,
            error: None,
        },
        Err(e) => EcuFaultsView {
            address,
            faults: Seq::<Dtc>::empty(),
            info: Seq::<Dtc>::empty(),
            info_supported: false,
            error: Some(e),
        },
    }
}

/// `list` with `entry` put in by address, behind those of the same address.
pub open spec fn put_by_address(list: Seq<EcuFaultsView>, entry: EcuFaultsView) -> Seq<EcuFaultsView>
    decreases list.len(),
{
    if list.len() == 0 || list.last().address <= entry.address {
        list.push(entry)
    } else {
        put_by_address(list.drop_last(), entry).push(list.last())
    }
}

/// Whether a list ascends by address.
pub open spec fn by_address(list: Seq<EcuFaultsView>) -> bool {
    forall|i: int, j: int|
        0 <= i < j < list.len() ==> (#[trigger] list[i]).address <= (#[trigger] list[j]).address
}

/// The state of a scan: the addresses to read, and what was read of the first of them.
#[verifier::ext_equal]
pub struct ScanView {
    pub addresses: Seq<u8>,
    pub read: nat,
    pub list: Seq<EcuFaultsView>,
}

/// A read of every address in turn. An ECU that cannot be read is recorded, never the end of the
/// scan. The result is sorted by address.
#[derive(Debug)]
pub struct Scan {
    addresses: Vec<u8>,
    read: usize,
    list: Vec<EcuFaults>,
}

impl View for Scan {
    type V = ScanView;

    closed spec fn view(&self) -> ScanView {
        ScanView {
            addresses: self.addresses@,
            read: self.read as nat,
            list: faults_view(self.list@),
        }
    }
}

/// The scan before its first read.
pub open spec fn scan_start(addresses: Seq<u8>) -> ScanView {
    ScanView { addresses, read: 0, list: Seq::<EcuFaultsView>::empty() }
}

/// The next address to read.
pub open spec fn scan_next(v: ScanView) -> Option<u8> {
    if v.read < v.addresses.len() {
        Some(v.addresses[v.read as int])
    } else {
        None
    }
}

/// The scan after one ECU.
pub open spec fn scan_recorded(v: ScanView, result: Result<EcuFaultBundle, ClientError>) -> ScanView {
    ScanView {
        addresses: v.addresses,
        read: v.read + 1,
        list: put_by_address(v.list, entry_of(v.addresses[v.read as int], result)),
    }
}

/// The addresses of a list.
pub open spec fn list_addresses(list: Seq<EcuFaultsView>) -> Seq<u8> {
    Seq::new(list.len(), |i: int| list[i].address)
}

/// What holds at every step of a scan: the list ascends by address, and has exactly one entry for
/// each address read so far.
pub open spec fn scan_inv(v: ScanView) -> bool {
    &&& v.read <= v.addresses.len()
    &&& by_address(v.list)
    &&& list_addresses(v.list).to_multiset() == v.addresses.take(v.read as int).to_multiset()
}

proof fn lemma_put_by_address(list: Seq<EcuFaultsView>, entry: EcuFaultsView)
    requires
        by_address(list),
    ensures
        by_address(put_by_address(list, entry)),
        list_addresses(put_by_address(list, entry)).to_multiset() == list_addresses(
            list,
        ).to_multiset().insert(entry.address),
        put_by_address(list, entry).len() == list.len() + 1,
        list.len() > 0 && entry.address < list.last().address ==> put_by_address(
            list,
            entry,
        ).last().address == list.last().address,
        list.len() == 0 || entry.address >= list.last().address ==> put_by_address(
            list,
            entry,
        ).last().address == entry.address,
    decreases list.len(),
{
    broadcast use vstd::seq_lib::group_to_multiset_ensures;

    if list.len() == 0 || list.last().address <= entry.address {
        assert(list_addresses(list.push(entry)) =~= list_addresses(list).push(entry.address));
        let after = list.push(entry);
        assert forall|i: int, j: int| 0 <= i < j < after.len() implies (#[trigger] after[i]).address
            <= (#[trigger] after[j]).address by {
            if j == list.len() && i < list.len() - 1 {
                assert(list[i].address <= list[list.len() - 1].address);
            }
        }
    } else {
        let short = list.drop_last();
        lemma_put_by_address(short, entry);
        let inner = put_by_address(short, entry);
        let after = inner.push(list.last());
        assert(list_addresses(after) =~= list_addresses(inner).push(list.last().address));
        assert(list_addresses(list) =~= list_addresses(short).push(list.last().address));
        assert(list_addresses(after).to_multiset() =~= list_addresses(list).to_multiset().insert(
            entry.address,
        ));
        assert forall|i: int, j: int| 0 <= i < j < after.len() implies (#[trigger] after[i]).address
            <= (#[trigger] after[j]).address by {
            if j == inner.len() {
                assert(inner[i].address <= inner[inner.len() - 1].address);
                if short.len() > 0 {
                    assert(list[list.len() - 2].address <= list[list.len() - 1].address);
                }
            }
        }
    }
}

/// Every step of a scan keeps its list sorted, with one entry per address read; so a finished scan
/// has one entry for every address, whatever could not be read.
pub proof fn law_a_scan_covers_every_address(
    v: ScanView,
    result: Result<EcuFaultBundle, ClientError>,
)
    requires
        scan_inv(v),
    ensures
        scan_next(v) is Some ==> scan_inv(scan_recorded(v, result)),
        scan_next(v) is None ==> list_addresses(v.list).to_multiset() == v.addresses.to_multiset(),
{
    broadcast use vstd::seq_lib::group_to_multiset_ensures;

    if scan_next(v) is Some {
        lemma_put_by_address(v.list, entry_of(v.addresses[v.read as int], result));
        assert(v.addresses.take(v.read as int + 1) =~= v.addresses.take(v.read as int).push(
            v.addresses[v.read as int],
        ));
    } else {
        assert(v.addresses.take(v.read as int) =~= v.addresses);
    }
}

/// A scan starts with nothing read.
pub proof fn law_a_scan_starts_well(addresses: Seq<u8>)
    ensures
        scan_inv(scan_start(addresses)),
{
    assert(list_addresses(Seq::<EcuFaultsView>::empty()) =~= Seq::<u8>::empty());
    assert(addresses.take(0) =~= Seq::<u8>::empty());
}

/// An ECU that answers a scan has no error; one that does not has no faults, only its error.
pub proof fn law_a_silent_ecu_is_recorded_as_an_error(
    address: u8,
    result: Result<EcuFaultBundle, ClientError>,
)
    ensures
        entry_of(address, result).address == address,
        entry_of(address, result).error is Some <==> result is Err,
        result is Err ==> entry_of(address, result).faults.len() == 0,
{
}

/// What reading one ECU gave.
fn ecu_faults(address: u8, result: Result<EcuFaultBundle, ClientError>) -> (r: EcuFaults)
    ensures
        r@ == entry_of(address, result),
{
    match result {
        Ok(bundle) => EcuFaults {
            address,
            faults: bundle.faults,
            info: bundle.info,
            info_supported: bundle.info_supported,
            error: None,
        },
        Err(e) => EcuFaults {
            address,
            faults: Vec::new(),
            info: Vec::new(),
            info_supported: false,
            error: Some(e),
        },
    }
}

impl Scan {
    /// The list ascends by address, and has one entry for each address read.
    #[verifier::type_invariant]
    spec fn well_read(self) -> bool {
        scan_inv(self@)
    }

    /// Start a scan of these addresses.
    pub fn scan_faults(addresses: &[u8]) -> (r: Scan)
        ensures
            r@ == scan_start(addresses@),
    {
        let list: Vec<EcuFaults> = Vec::new();
        proof {
            law_a_scan_starts_well(addresses@);
            assert(faults_view(list@) =~= Seq::<EcuFaultsView>::empty());
        }
        Scan { addresses: copy_bytes(addresses), read: 0, list }
    }

    /// The next address to read, if one is left.
    pub fn next(&self) -> (r: Option<u8>)
        ensures
            r == scan_next(self@),
    {
        if self.read < self.addresses.len() {
            Some(self.addresses[self.read])
        } else {
            None
        }
    }

    /// Take what reading the ECU gave.
    pub fn record(&mut self, result: Result<EcuFaultBundle, ClientError>)
        requires
            scan_next(old(self)@) is Some,
        ensures
            final(self)@ == scan_recorded(old(self)@, result),
    {
        proof {
            use_type_invariant(&*self);
            law_a_scan_covers_every_address(self@, result);
        }
        let mut scan = Scan::scan_faults(&[]);
        std::mem::swap(&mut scan, self);
        let Scan { addresses, read, mut list } = scan;
        let address: u8 = addresses[read];
        let entry = ecu_faults(address, result);
        let ghost view = entry@;
        let ghost before = faults_view(list@);
        let mut p: usize = list.len();
        assert(before.take(p as int) =~= before);
        assert(put_by_address(before, view) =~= put_by_address(before.take(p as int), view)
            + before.skip(p as int));
        while p > 0 && list[p - 1].address > address
            invariant
                p <= list.len(),
                before == faults_view(list@),
                view.address == address,
                put_by_address(before, view) == put_by_address(before.take(p as int), view)
                    + before.skip(p as int),
            decreases p,
        {
            proof {
                let front = before.take(p as int);
                assert(front.drop_last() =~= before.take(p - 1));
                assert(front.last() == before[p - 1]);
                assert(put_by_address(front.drop_last(), view).push(front.last()) + before.skip(
                    p as int,
                ) =~= put_by_address(before.take(p - 1), view) + before.skip(p - 1));
            }
            p = p - 1;
        }
        proof {
            if p > 0 {
                assert(before.take(p as int).last() == before[p - 1]);
            }
            assert(put_by_address(before.take(p as int), view) == before.take(p as int).push(view));
        }
        list.insert(p, entry);
        assert(faults_view(list@) =~= before.take(p as int).push(view) + before.skip(p as int));
        assert(read < addresses.len());
        *self = Scan { addresses, read: read + 1, list };
    }

    /// What was read, sorted by address.
    pub fn finish(self) -> (r: Vec<EcuFaults>)
        ensures
            faults_view(r@) == self@.list,
            by_address(faults_view(r@)),
    {
        proof {
            use_type_invariant(&self);
        }
        self.list
    }
}

// ---------------------------------------------------------------------------
// Clearing one ECU
// ---------------------------------------------------------------------------

/// Where a failure happened.
#[derive(Debug, Clone, Copy, PartialEq, Eq, Structural)]
pub enum ClearStep {
    /// A plain read of the ECU.
    Read,
    /// The read before the clear.
    PreRead,
    /// The clear itself.
    Clear,
    /// The read after the clear.
    PostRead,
}

impl ClearStep {
    /// The words that lead a failure's message.
    pub fn label(self) -> (r: &'static str)
        ensures
            r == (match self {
                ClearStep::Read => "",
                ClearStep::PreRead => "pre-read failed: ",
                ClearStep::Clear => "clear failed: ",
                ClearStep::PostRead => "post-read verify failed: ",
            }),
    {
        match self {
            ClearStep::Read => "",
            ClearStep::PreRead => "pre-read failed: ",
            ClearStep::Clear => "clear failed: ",
            ClearStep::PostRead => "post-read verify failed: ",
        }
    }
}

/// A failure and where it happened.
#[derive(Debug)]
pub struct StepFailure {
    pub step: ClearStep,
    pub error: ClientError,
}

/// The record of a verified per-ECU clear.
#[derive(Debug)]
pub struct ClearReport {
    /// The diagnostic address.
    pub address: u8,
    /// Every DTC stored immediately before the clear.
    pub before: Vec<Dtc>,
    /// The faults still present after the clear (empty means clean).
    pub after_relevant: Vec<Dtc>,
    /// True if the re-read after the clear showed no fault.
    pub verified_clean: bool,
    /// Set if any step failed for this ECU.
    pub error: Option<StepFailure>,
}

/// What a [`ClearReport`] holds.
#[verifier::ext_equal]
pub struct ClearReportView {
    pub address: u8,
    pub before: Seq<Dtc>,
    pub after_relevant: Seq<Dtc>,
    pub verified_clean: bool,
    pub error: Option<StepFailure>,
}

impl View for ClearReport {
    type V = ClearReportView;

    open spec fn view(&self) -> ClearReportView {
        ClearReportView {
            address: self.address,
            before: self.before@,
            after_relevant: self.after_relevant@,
            verified_clean: self.verified_clean,
            error: self.error,
        }
    }
}

/// The views of clear reports.
pub open spec fn clear_reports_view(v: Seq<ClearReport>) -> Seq<ClearReportView> {
    Seq::new(v.len(), |i: int| v[i]@)
}

/// What to do next when clearing one ECU.
#[derive(Debug, Clone, Copy, PartialEq, Eq, Structural)]
pub enum ClearAction {
    /// Read the ECU's faults, then [`VerifiedClear::record_read`].
    ReadFaults,
    /// Clear the ECU's faults, then [`VerifiedClear::record_clear`].
    Clear,
    /// Nothing is left to do.
    Done,
}

/// The state of a verified clear.
#[verifier::ext_equal]
pub struct VerifiedClearView {
    /// The step that is due: the read before, the clear, the read after, or none.
    pub due: Option<ClearStep>,
    pub report: ClearReportView,
}

/// A clear of one ECU with a read before and a read after.
///
/// A failed read before means that the ECU is *not* cleared: never clear blind.
#[derive(Debug)]
pub struct VerifiedClear {
    due: Option<ClearStep>,
    report: ClearReport,
}

impl View for VerifiedClear {
    type V = VerifiedClearView;

    closed spec fn view(&self) -> VerifiedClearView {
        VerifiedClearView { due: self.due, report: self.report@ }
    }
}

/// The clear of one ECU before its first step.
pub open spec fn clear_start(target: u8) -> VerifiedClearView {
    VerifiedClearView {
        due: Some(ClearStep::PreRead),
        report: ClearReportView {
            address: target,
            before: Seq::<Dtc>::empty(),
            after_relevant: Seq::<Dtc>::empty(),
            verified_clean: false,
            error: None,
        },
    }
}

/// What to do next.
pub open spec fn clear_action(v: VerifiedClearView) -> ClearAction {
    match v.due {
        Some(ClearStep::Clear) => ClearAction::Clear,
        Some(_) => ClearAction::ReadFaults,
        None => ClearAction::Done,
    }
}

/// The clear after a read.
pub open spec fn clear_read_recorded(
    v: VerifiedClearView,
    result: Result<Seq<Dtc>, ClientError>,
) -> VerifiedClearView {
    let step = match v.due {
        Some(step) => step,
        None => ClearStep::Read,
    };
    match result {
        Ok(dtcs) => if step == ClearStep::PreRead {
            VerifiedClearView {
                due: Some(ClearStep::Clear),
                report: ClearReportView { before: dtcs, ..v.report },
            }
        } else {
            VerifiedClearView {
                due: None,
                report: ClearReportView {
                    after_relevant: dtcs,
                    verified_clean: dtcs.len() == 0,
                    ..v.report
                },
            }
        },
        Err(error) => VerifiedClearView {
            due: None,
            report: ClearReportView { error: Some(StepFailure { step, error }), ..v.report },
        },
    }
}

/// The clear after the clear itself.
pub open spec fn clear_cleared(v: VerifiedClearView, failure: Option<ClientError>) -> VerifiedClearView {
    match failure {
        None => VerifiedClearView { due: Some(ClearStep::PostRead), report: v.report },
        Some(error) => VerifiedClearView {
            due: None,
            report: ClearReportView {
                error: Some(StepFailure { step: ClearStep::Clear, error }),
                ..v.report
            },
        },
    }
}

/// The view of a read's result.
pub open spec fn read_view(r: Result<Vec<Dtc>, ClientError>) -> Result<Seq<Dtc>, ClientError> {
    match r {
        Ok(dtcs) => Ok(dtcs@),
        Err(e) => Err(e),
    }
}

/// What holds at every step of a verified clear.
pub open spec fn clear_inv(v: VerifiedClearView) -> bool {
    &&& v.due != Some(ClearStep::Read)
    &&& v.due is Some ==> v.report.error is None && !v.report.verified_clean
    &&& v.report.verified_clean ==> v.report.error is None && v.report.after_relevant.len() == 0
}

/// Every step keeps what holds of a verified clear.
pub proof fn law_every_step_keeps_the_clear(
    v: VerifiedClearView,
    result: Result<Seq<Dtc>, ClientError>,
    failure: Option<ClientError>,
)
    requires
        clear_inv(v),
    ensures
        clear_action(v) == ClearAction::ReadFaults ==> clear_inv(clear_read_recorded(v, result)),
        clear_action(v) == ClearAction::Clear ==> clear_inv(clear_cleared(v, failure)),
        clear_inv(clear_start(v.report.address)),
{
}

/// Nothing is cleared blind: where the read before fails, the clear is never due, and the report
/// says so; where it succeeds, its faults are on record before the clear is due.
pub proof fn law_nothing_is_cleared_blind(target: u8, result: Result<Seq<Dtc>, ClientError>)
    ensures
        clear_action(clear_start(target)) == ClearAction::ReadFaults,
        ({
            let v = clear_read_recorded(clear_start(target), result);
            match result {
                Ok(dtcs) => clear_action(v) == ClearAction::Clear && v.report.before == dtcs,
                Err(error) => clear_action(v) == ClearAction::Done && v.report.error == Some(
                    StepFailure { step: ClearStep::PreRead, error },
                ) && !v.report.verified_clean && !was_cleared(v.report),
            }
        }),
{
}

impl VerifiedClear {
    /// What holds at every step of a verified clear.
    #[verifier::type_invariant]
    spec fn well_cleared(self) -> bool {
        clear_inv(self@)
    }

    /// Start the clear of one ECU.
    pub fn clear_faults_verified(target: u8) -> (r: VerifiedClear)
        ensures
            r@ == clear_start(target),
            clear_inv(r@),
    {
        VerifiedClear {
            due: Some(ClearStep::PreRead),
            report: ClearReport {
                address: target,
                before: Vec::new(),
                after_relevant: Vec::new(),
                verified_clean: false,
                error: None,
            },
        }
    }

    /// What to do next.
    pub fn next(&self) -> (r: ClearAction)
        ensures
            r == clear_action(self@),
    {
        match self.due {
            Some(ClearStep::Clear) => ClearAction::Clear,
            Some(_) => ClearAction::ReadFaults,
            None => ClearAction::Done,
        }
    }

    /// Take what reading the faults gave.
    pub fn record_read(&mut self, result: Result<Vec<Dtc>, ClientError>)
        requires
            clear_action(old(self)@) == ClearAction::ReadFaults,
        ensures
            final(self)@ == clear_read_recorded(old(self)@, read_view(result)),
            clear_inv(final(self)@),
    {
        proof {
            use_type_invariant(&*self);
        }
        let step = match self.due {
            Some(step) => step,
            None => ClearStep::Read,
        };
        match result {
            Ok(dtcs) => {
                if step == ClearStep::PreRead {
                    self.report.before = dtcs;
                    self.due = Some(ClearStep::Clear);
                } else {
                    let clean = dtcs.len() == 0;
                    self.due = None;
                    self.report.after_relevant = dtcs;
                    self.report.verified_clean = clean;
                }
            },
            Err(error) => {
                self.due = None;
                self.report.error = Some(StepFailure { step, error });
            },
        }
    }

    /// Take what clearing gave.
    pub fn record_clear(&mut self, failure: Option<ClientError>)
        requires
            clear_action(old(self)@) == ClearAction::Clear,
        ensures
            final(self)@ == clear_cleared(old(self)@, failure),
            clear_inv(final(self)@),
    {
        proof {
            use_type_invariant(&*self);
        }
        match failure {
            None => {
                self.due = Some(ClearStep::PostRead);
            },
            Some(error) => {
                self.due = None;
                self.report.error = Some(StepFailure { step: ClearStep::Clear, error });
            },
        }
    }

    /// The report.
    pub fn finish(self) -> (r: ClearReport)
        ensures
            r@ == self@.report,
    {
        self.report
    }
}

// ---------------------------------------------------------------------------
// The whole-vehicle clear
// ---------------------------------------------------------------------------

/// Why the terminal-15 cycle after a clear failed.
///
/// `restored` is what matters: `false` means that terminal 15 may still be *down*, and the car may
/// not start until it is raised.
#[derive(Debug)]
pub struct ClampCycleFailure {
    /// Whether terminal 15 is known to be up again.
    pub restored: bool,
    /// The failure.
    pub error: ClientError,
}

/// The stages of a whole-vehicle clear, in order.
#[derive(Debug, Clone, Copy, PartialEq, Eq, Structural)]
pub enum ClearStage {
    /// Read every fitted ECU, before anything is erased.
    PreRead,
    /// One functional broadcast to every ECU.
    Broadcast,
    /// Per-ECU clears for whatever stayed silent.
    Stragglers,
    /// The supplier-specific stores.
    Suppliers,
    /// The gateway's own combined store.
    GatewayStore,
    /// The terminal-15 cycle.
    ClampCycle,
    /// The settle before re-identifying.
    SettleBefore,
    /// The re-identification.
    Reident,
    /// The settle after re-identifying.
    SettleAfter,
    /// The verification read of the whole car.
    Verify,
    /// Nothing is left to do.
    Done,
}

/// The place of a stage in the sequence.
pub open spec fn stage_order(stage: ClearStage) -> int {
    match stage {
        ClearStage::PreRead => 0,
        ClearStage::Broadcast => 1,
        ClearStage::Stragglers => 2,
        ClearStage::Suppliers => 3,
        ClearStage::GatewayStore => 4,
        ClearStage::ClampCycle => 5,
        ClearStage::SettleBefore => 6,
        ClearStage::Reident => 7,
        ClearStage::SettleAfter => 8,
        ClearStage::Verify => 9,
        ClearStage::Done => 10,
    }
}

/// What to do next in a whole-vehicle clear.
#[derive(Debug)]
pub enum SequenceStep {
    /// Scan these addresses, then [`ClearSequence::record_scan`].
    Scan(Vec<u8>),
    /// Send the functional clear, then [`ClearSequence::record_broadcast`].
    Broadcast,
    /// Clear this ECU with verification, then [`ClearSequence::record_straggler`].
    ClearEcu(u8),
    /// Run this supplier job, then [`ClearSequence::record_job`].
    RunJob(SupplierJob),
    /// Clear the gateway's combined store, then [`ClearSequence::record_store`].
    ClearGatewayStore,
    /// Cycle terminal 15, then [`ClearSequence::record_clamp`].
    CycleTerminal15,
    /// Wait this many milliseconds, then [`ClearSequence::rested`].
    Sleep(u64),
    /// Read the gateway's ECU list, then [`ClearSequence::record_list`].
    ReadEcuList,
    /// Nothing is left to do.
    Done,
}

/// The view of a [`SequenceStep`].
#[verifier::ext_equal]
pub enum SequenceStepView {
    Scan(Seq<u8>),
    Broadcast,
    ClearEcu(u8),
    RunJob(SupplierJob),
    ClearGatewayStore,
    CycleTerminal15,
    Sleep(u64),
    ReadEcuList,
    Done,
}

impl View for SequenceStep {
    type V = SequenceStepView;

    open spec fn view(&self) -> SequenceStepView {
        match *self {
            SequenceStep::Scan(addresses) => SequenceStepView::Scan(addresses@),
            SequenceStep::Broadcast => SequenceStepView::Broadcast,
            SequenceStep::ClearEcu(address) => SequenceStepView::ClearEcu(address),
            SequenceStep::RunJob(job) => SequenceStepView::RunJob(job),
            SequenceStep::ClearGatewayStore => SequenceStepView::ClearGatewayStore,
            SequenceStep::CycleTerminal15 => SequenceStepView::CycleTerminal15,
            SequenceStep::Sleep(ms) => SequenceStepView::Sleep(ms),
            SequenceStep::ReadEcuList => SequenceStepView::ReadEcuList,
            SequenceStep::Done => SequenceStepView::Done,
        }
    }
}

/// The record of one whole-vehicle clear sequence, phase by phase.
///
/// Every field is an outcome, never a reason to have stopped.
#[derive(Debug)]
pub struct ClearSequenceReport {
    /// Every fitted ECU's stored faults, read *before* anything was erased.
    pub before: Vec<EcuFaults>,
    /// The addresses that answered the functional broadcast, or why it failed. An empty list means
    /// that nobody answered.
    pub functional: Result<Vec<u8>, ClientError>,
    /// The per-ECU clears for the ECUs that did not answer the broadcast.
    pub stragglers: Vec<ClearReport>,
    /// The supplier-specific stores, and what was done with each.
    pub supplier_jobs: Vec<SupplierJobReport>,
    /// The gateway's combined store clear.
    pub gateway_zfs: Result<(), ClientError>,
    /// The terminal-15 cycle.
    pub clamp_cycle: Result<(), ClampCycleFailure>,
    /// The re-identification: the fitted list, re-read from the gateway.
    pub reident: Result<Vec<u8>, ClientError>,
    /// The whole-car verification read.
    pub verification: Vec<EcuFaults>,
}

/// What a [`ClearSequenceReport`] holds.
#[verifier::ext_equal]
pub struct SequenceReportView {
    pub before: Seq<EcuFaultsView>,
    pub functional: Result<Seq<u8>, ClientError>,
    pub stragglers: Seq<ClearReportView>,
    pub supplier_jobs: Seq<crate::client::supplier::JobReportView>,
    pub gateway_zfs: Result<(), ClientError>,
    pub clamp_cycle: Result<(), ClampCycleFailure>,
    pub reident: Result<Seq<u8>, ClientError>,
    pub verification: Seq<EcuFaultsView>,
}

impl View for ClearSequenceReport {
    type V = SequenceReportView;

    open spec fn view(&self) -> SequenceReportView {
        SequenceReportView {
            before: faults_view(self.before@),
            functional: crate::client::error::outcome_view(self.functional),
            stragglers: clear_reports_view(self.stragglers@),
            supplier_jobs: crate::client::supplier::reports_view(self.supplier_jobs@),
            gateway_zfs: self.gateway_zfs,
            clamp_cycle: self.clamp_cycle,
            reident: crate::client::error::outcome_view(self.reident),
            verification: faults_view(self.verification@),
        }
    }
}

/// The state of a whole-vehicle clear.
#[verifier::ext_equal]
pub struct SequenceView {
    pub stage: ClearStage,
    pub addresses: Seq<u8>,
    /// Whether supplier jobs can be run.
    pub runner: bool,
    /// The silent ECUs to be cleared one by one.
    pub pending: Seq<u8>,
    /// How many supplier jobs were run.
    pub ran: nat,
    pub report: SequenceReportView,
}

/// The addresses that answered the broadcast.
pub open spec fn answered(functional: Result<Seq<u8>, ClientError>) -> Seq<u8> {
    match functional {
        Ok(addresses) => addresses,
        Err(_) => Seq::<u8>::empty(),
    }
}

/// Whether an ECU is to be cleared by itself: it had faults or could not be read, and it did not
/// answer the broadcast.
pub open spec fn is_straggler(ecu: EcuFaultsView, answers: Seq<u8>) -> bool {
    (ecu.faults.len() > 0 || ecu.error is Some) && !answers.contains(ecu.address)
}

/// The stragglers among what was read before, in order.
pub open spec fn stragglers_of(before: Seq<EcuFaultsView>, answers: Seq<u8>) -> Seq<u8>
    decreases before.len(),
{
    if before.len() == 0 {
        Seq::<u8>::empty()
    } else {
        let first = stragglers_of(before.drop_last(), answers);
        if is_straggler(before.last(), answers) {
            first.push(before.last().address)
        } else {
            first
        }
    }
}

/// The addresses of the verification read: what the re-identification found, or the fitted list
/// if it failed or found nothing.
pub open spec fn verify_addresses(v: SequenceView) -> Seq<u8> {
    match v.report.reident {
        Ok(found) => if found.len() > 0 {
            found
        } else {
            v.addresses
        },
        Err(_) => v.addresses,
    }
}

/// The sequence with stages that have nothing to do left behind.
pub open spec fn moved_on(v: SequenceView) -> SequenceView {
    let stage = if v.stage == ClearStage::Stragglers && v.report.stragglers.len() >= v.pending.len() {
        ClearStage::Suppliers
    } else {
        v.stage
    };
    let stage = if stage == ClearStage::Suppliers && (!v.runner || v.ran
        >= v.report.supplier_jobs.len()) {
        ClearStage::GatewayStore
    } else {
        stage
    };
    SequenceView { stage, ..v }
}

/// The sequence before its first step.
pub open spec fn sequence_start(
    addresses: Seq<u8>,
    vehicle: VehicleComposition,
    runner: bool,
) -> SequenceView {
    SequenceView {
        stage: ClearStage::PreRead,
        addresses,
        runner,
        pending: Seq::<u8>::empty(),
        ran: 0,
        report: SequenceReportView {
            before: Seq::<EcuFaultsView>::empty(),
            functional: Ok(Seq::<u8>::empty()),
            stragglers: Seq::<ClearReportView>::empty(),
            supplier_jobs: crate::client::supplier::planned_reports(vehicle),
            gateway_zfs: Ok(()),
            clamp_cycle: Ok(()),
            reident: Ok(Seq::<u8>::empty()),
            verification: Seq::<EcuFaultsView>::empty(),
        },
    }
}

/// What to do next.
pub open spec fn sequence_step(v: SequenceView) -> SequenceStepView {
    match v.stage {
        ClearStage::PreRead => SequenceStepView::Scan(v.addresses),
        ClearStage::Broadcast => SequenceStepView::Broadcast,
        ClearStage::Stragglers => SequenceStepView::ClearEcu(
            v.pending[v.report.stragglers.len() as int],
        ),
        ClearStage::Suppliers => SequenceStepView::RunJob(
            v.report.supplier_jobs[v.ran as int].job,
        ),
        ClearStage::GatewayStore => SequenceStepView::ClearGatewayStore,
        ClearStage::ClampCycle => SequenceStepView::CycleTerminal15,
        ClearStage::SettleBefore => SequenceStepView::Sleep(SETTLE_BEFORE_REIDENT_MS),
        ClearStage::Reident => SequenceStepView::ReadEcuList,
        ClearStage::SettleAfter => SequenceStepView::Sleep(SETTLE_AFTER_REIDENT_MS),
        ClearStage::Verify => SequenceStepView::Scan(verify_addresses(v)),
        ClearStage::Done => SequenceStepView::Done,
    }
}

/// The sequence after a scan.
pub open spec fn scanned(v: SequenceView, list: Seq<EcuFaultsView>) -> SequenceView {
    if v.stage == ClearStage::PreRead {
        SequenceView {
            stage: ClearStage::Broadcast,
            report: SequenceReportView { before: list, ..v.report },
            ..v
        }
    } else {
        SequenceView {
            stage: ClearStage::Done,
            report: SequenceReportView { verification: list, ..v.report },
            ..v
        }
    }
}

/// The sequence after the broadcast.
pub open spec fn broadcast(v: SequenceView, functional: Result<Seq<u8>, ClientError>) -> SequenceView {
    moved_on(
        SequenceView {
            stage: ClearStage::Stragglers,
            pending: stragglers_of(v.report.before, answered(functional)),
            report: SequenceReportView { functional, ..v.report },
            ..v
        },
    )
}

/// The sequence after one straggler.
pub open spec fn straggled(v: SequenceView, report: ClearReportView) -> SequenceView {
    moved_on(
        SequenceView {
            report: SequenceReportView {
                stragglers: v.report.stragglers.push(report),
                ..v.report
            },
            ..v
        },
    )
}

/// The sequence after one supplier job.
pub open spec fn job_run(v: SequenceView, error: Option<Seq<char>>) -> SequenceView {
    let jobs = v.report.supplier_jobs;
    moved_on(
        SequenceView {
            ran: v.ran + 1,
            report: SequenceReportView {
                supplier_jobs: jobs.update(
                    v.ran as int,
                    crate::client::supplier::JobReportView {
                        job: jobs[v.ran as int].job,
                        not_run: error,
                    },
                ),
                ..v.report
            },
            ..v
        },
    )
}

/// The sequence after the gateway's store.
pub open spec fn store_cleared(v: SequenceView, result: Result<(), ClientError>) -> SequenceView {
    SequenceView {
        stage: ClearStage::ClampCycle,
        report: SequenceReportView { gateway_zfs: result, ..v.report },
        ..v
    }
}

/// The outcome of a terminal-15 cycle. Only a failure that says so leaves terminal 15 down.
pub open spec fn clamp_outcome(result: Result<(), ClientError>) -> Result<(), ClampCycleFailure> {
    match result {
        Ok(_) => Ok(()),
        Err(error) => Err(
            ClampCycleFailure {
                restored: !(error matches ClientError::ClampSwitch { restored, .. } && !restored),
                error,
            },
        ),
    }
}

/// The sequence after the terminal-15 cycle.
pub open spec fn clamped(v: SequenceView, result: Result<(), ClientError>) -> SequenceView {
    SequenceView {
        stage: ClearStage::SettleBefore,
        report: SequenceReportView { clamp_cycle: clamp_outcome(result), ..v.report },
        ..v
    }
}

/// The sequence after a settle.
pub open spec fn settled(v: SequenceView) -> SequenceView {
    SequenceView {
        stage: if v.stage == ClearStage::SettleBefore {
            ClearStage::Reident
        } else {
            ClearStage::Verify
        },
        ..v
    }
}

/// The sequence after the re-identification.
pub open spec fn relisted(v: SequenceView, reident: Result<Seq<u8>, ClientError>) -> SequenceView {
    SequenceView {
        stage: ClearStage::SettleAfter,
        report: SequenceReportView { reident, ..v.report },
        ..v
    }
}

/// What holds at every step of the sequence.
pub open spec fn sequence_inv(v: SequenceView) -> bool {
    &&& v.stage == ClearStage::Stragglers ==> v.report.stragglers.len() < v.pending.len()
    &&& v.stage == ClearStage::Suppliers ==> v.runner && v.ran < v.report.supplier_jobs.len()
    &&& stage_order(v.stage) <= 1 ==> v.report.stragglers.len() == 0 && v.ran == 0
    &&& v.stage == ClearStage::Stragglers ==> v.ran == 0
}

/// How many steps are left at most.
pub open spec fn sequence_left(v: SequenceView) -> (int, int) {
    (
        10 - stage_order(v.stage),
        if v.stage == ClearStage::Stragglers {
            v.pending.len() - v.report.stragglers.len()
        } else if v.stage == ClearStage::Suppliers {
            v.report.supplier_jobs.len() - v.ran
        } else {
            0
        },
    )
}

/// Whether one state of a sequence is nearer to its end than another.
pub open spec fn nearer(after: SequenceView, before: SequenceView) -> bool {
    ||| stage_order(after.stage) > stage_order(before.stage)
    ||| after.stage == before.stage && 0 <= sequence_left(after).1 < sequence_left(before).1
}

/// Nothing aborts: whatever each step brings, the sequence goes on, keeps what holds of it, and
/// comes nearer to its end.
pub proof fn law_nothing_aborts_the_clear(
    v: SequenceView,
    list: Seq<EcuFaultsView>,
    addresses: Result<Seq<u8>, ClientError>,
    report: ClearReportView,
    error: Option<Seq<char>>,
    result: Result<(), ClientError>,
)
    requires
        sequence_inv(v),
    ensures
        v.stage == ClearStage::PreRead || v.stage == ClearStage::Verify ==> sequence_inv(
            scanned(v, list),
        ) && nearer(scanned(v, list), v),
        v.stage == ClearStage::Broadcast ==> sequence_inv(broadcast(v, addresses)) && nearer(
            broadcast(v, addresses),
            v,
        ),
        v.stage == ClearStage::Stragglers ==> sequence_inv(straggled(v, report)) && nearer(
            straggled(v, report),
            v,
        ),
        v.stage == ClearStage::Suppliers ==> sequence_inv(job_run(v, error)) && nearer(
            job_run(v, error),
            v,
        ),
        v.stage == ClearStage::GatewayStore ==> sequence_inv(store_cleared(v, result)) && nearer(
            store_cleared(v, result),
            v,
        ),
        v.stage == ClearStage::ClampCycle ==> sequence_inv(clamped(v, result)) && nearer(
            clamped(v, result),
            v,
        ),
        v.stage == ClearStage::SettleBefore || v.stage == ClearStage::SettleAfter ==> sequence_inv(
            settled(v),
        ) && nearer(settled(v), v),
        v.stage == ClearStage::Reident ==> sequence_inv(relisted(v, addresses)) && nearer(
            relisted(v, addresses),
            v,
        ),
{
}

/// The clear never passes over a stage that matters: after the broadcast comes the gateway's store
/// at the latest, then the terminal-15 cycle, whatever failed before.
pub proof fn law_the_clamp_cycle_always_runs(v: SequenceView, result: Result<(), ClientError>)
    ensures
        v.stage == ClearStage::GatewayStore ==> sequence_step(store_cleared(v, result))
            is CycleTerminal15,
        v.stage == ClearStage::ClampCycle ==> sequence_step(clamped(v, result))
            == SequenceStepView::Sleep(SETTLE_BEFORE_REIDENT_MS),
{
}

proof fn lemma_stragglers(before: Seq<EcuFaultsView>, answers: Seq<u8>)
    ensures
        forall|address: u8| #[trigger]
            stragglers_of(before, answers).contains(address) <==> exists|i: int|
                0 <= i < before.len() && (#[trigger] before[i]).address == address && is_straggler(
                    before[i],
                    answers,
                ),
    decreases before.len(),
{
    if before.len() > 0 {
        let short = before.drop_last();
        let last = before.last();
        lemma_stragglers(short, answers);
        let first = stragglers_of(short, answers);
        let all = stragglers_of(before, answers);
        assert forall|address: u8| #[trigger] all.contains(address) <==> exists|i: int|
            0 <= i < before.len() && (#[trigger] before[i]).address == address && is_straggler(
                before[i],
                answers,
            ) by {
            if all.contains(address) {
                let k = choose|k: int| 0 <= k < all.len() && all[k] == address;
                if k < first.len() {
                    assert(first[k] == address);
                    assert(first.contains(address));
                    let i = choose|i: int|
                        0 <= i < short.len() && (#[trigger] short[i]).address == address
                            && is_straggler(short[i], answers);
                    assert(before[i] == short[i]);
                } else {
                    assert(before[before.len() - 1].address == address);
                }
            }
            if exists|i: int|
                0 <= i < before.len() && (#[trigger] before[i]).address == address && is_straggler(
                    before[i],
                    answers,
                ) {
                let i = choose|i: int|
                    0 <= i < before.len() && (#[trigger] before[i]).address == address
                        && is_straggler(before[i], answers);
                if i < short.len() {
                    assert(short[i] == before[i]);
                    assert(first.contains(address));
                    let k = choose|k: int| 0 <= k < first.len() && first[k] == address;
                    assert(all[k] == address);
                } else {
                    assert(all[all.len() - 1] == address);
                }
            }
        }
    }
}

/// What is cleared by itself is exactly what was read before as faulty or unreadable and did not
/// answer the broadcast; an ECU that answered, and one that was clean, never is.
pub proof fn law_only_silent_faulty_ecus_are_cleared_again(
    before: Seq<EcuFaultsView>,
    answers: Seq<u8>,
    address: u8,
)
    ensures
        stragglers_of(before, answers).contains(address) <==> !answers.contains(address) && exists|
            i: int,
        |
            0 <= i < before.len() && (#[trigger] before[i]).address == address
                && (before[i].faults.len() > 0 || before[i].error is Some),
{
    lemma_stragglers(before, answers);
    if !answers.contains(address) && exists|i: int|
        0 <= i < before.len() && (#[trigger] before[i]).address == address
            && (before[i].faults.len() > 0 || before[i].error is Some) {
        let i = choose|i: int|
            0 <= i < before.len() && (#[trigger] before[i]).address == address
                && (before[i].faults.len() > 0 || before[i].error is Some);
        assert(is_straggler(before[i], answers));
    }
}

/// A failed re-identification never shrinks what is verified.
pub proof fn law_a_failed_reident_verifies_the_fitted_list(v: SequenceView)
    requires
        v.stage == ClearStage::Verify,
        v.report.reident is Err || v.report.reident == Ok::<Seq<u8>, ClientError>(
            Seq::<u8>::empty(),
        ),
    ensures
        sequence_step(v) == SequenceStepView::Scan(v.addresses),
{
}

/// What a whole-vehicle clear holds.
#[derive(Debug)]
struct SequenceState {
    stage: ClearStage,
    addresses: Vec<u8>,
    runner: bool,
    pending: Vec<u8>,
    ran: usize,
    report: ClearSequenceReport,
}

impl View for SequenceState {
    type V = SequenceView;

    closed spec fn view(&self) -> SequenceView {
        SequenceView {
            stage: self.stage,
            addresses: self.addresses@,
            runner: self.runner,
            pending: self.pending@,
            ran: self.ran as nat,
            report: self.report@,
        }
    }
}

/// The stragglers among what was read before.
fn find_stragglers(before: &[EcuFaults], answers: &[u8]) -> (r: Vec<u8>)
    ensures
        r@ == stragglers_of(faults_view(before@), answers@),
{
    let ghost list = faults_view(before@);
    let mut out: Vec<u8> = Vec::new();
    let mut i: usize = 0;
    while i < before.len()
        invariant
            i <= before.len(),
            list == faults_view(before@),
            out@ == stragglers_of(list.take(i as int), answers@),
        decreases before.len() - i,
    {
        let ecu = &before[i];
        assert(list.take(i + 1).drop_last() =~= list.take(i as int));
        assert(list.take(i + 1).last() == ecu@);
        if (ecu.faults.len() > 0 || ecu.error.is_some()) && !contains_byte(answers, ecu.address) {
            out.push(ecu.address);
        }
        i = i + 1;
    }
    assert(list.take(i as int) =~= list);
    out
}

impl SequenceState {
    /// The state before the first step.
    fn start(addresses: &[u8], vehicle: &VehicleComposition, runner: bool) -> (r: SequenceState)
        ensures
            r@ == sequence_start(addresses@, *vehicle, runner),
            sequence_inv(r@),
    {
        let r = SequenceState {
            stage: ClearStage::PreRead,
            addresses: copy_bytes(addresses),
            runner,
            pending: Vec::new(),
            ran: 0,
            report: ClearSequenceReport {
                before: Vec::new(),
                functional: Ok(Vec::new()),
                stragglers: Vec::new(),
                supplier_jobs: supplier_clear_jobs(vehicle),
                gateway_zfs: Ok(()),
                clamp_cycle: Ok(()),
                reident: Ok(Vec::new()),
                verification: Vec::new(),
            },
        };
        assert(r@ =~~= sequence_start(addresses@, *vehicle, runner));
        r
    }

    /// A state with nothing to do: it stands in while a step is taken.
    fn idle() -> (r: SequenceState)
        ensures
            sequence_inv(r@),
    {
        SequenceState::start(&[], &VehicleComposition::default(), false)
    }

    /// Leave stages behind that have nothing to do.
    fn move_on(&mut self)
        ensures
            final(self)@ == moved_on(old(self)@),
    {
        if self.stage == ClearStage::Stragglers && self.report.stragglers.len()
            >= self.pending.len() {
            self.stage = ClearStage::Suppliers;
        }
        if self.stage == ClearStage::Suppliers && (!self.runner || self.ran
            >= self.report.supplier_jobs.len()) {
            self.stage = ClearStage::GatewayStore;
        }
    }

    /// What to do next.
    fn next(&self) -> (r: SequenceStep)
        requires
            sequence_inv(self@),
        ensures
            r@ == sequence_step(self@),
    {
        match self.stage {
            ClearStage::PreRead => SequenceStep::Scan(copy_bytes(self.addresses.as_slice())),
            ClearStage::Broadcast => SequenceStep::Broadcast,
            ClearStage::Stragglers => SequenceStep::ClearEcu(
                self.pending[self.report.stragglers.len()],
            ),
            ClearStage::Suppliers => {
                assert(self@.report.supplier_jobs[self.ran as int]
                    == self.report.supplier_jobs@[self.ran as int]@);
                SequenceStep::RunJob(self.report.supplier_jobs[self.ran].job)
            },
            ClearStage::GatewayStore => SequenceStep::ClearGatewayStore,
            ClearStage::ClampCycle => SequenceStep::CycleTerminal15,
            ClearStage::SettleBefore => SequenceStep::Sleep(SETTLE_BEFORE_REIDENT_MS),
            ClearStage::Reident => SequenceStep::ReadEcuList,
            ClearStage::SettleAfter => SequenceStep::Sleep(SETTLE_AFTER_REIDENT_MS),
            ClearStage::Verify => {
                let found = match &self.report.reident {
                    Ok(found) => if found.len() > 0 {
                        found.as_slice()
                    } else {
                        self.addresses.as_slice()
                    },
                    Err(_) => self.addresses.as_slice(),
                };
                SequenceStep::Scan(copy_bytes(found))
            },
            ClearStage::Done => SequenceStep::Done,
        }
    }

    /// Take what a scan gave.
    fn record_scan(&mut self, list: Vec<EcuFaults>)
        requires
            sequence_inv(old(self)@),
            sequence_step(old(self)@) is Scan,
        ensures
            final(self)@ == scanned(old(self)@, faults_view(list@)),
            sequence_inv(final(self)@),
    {
        if self.stage == ClearStage::PreRead {
            self.report.before = list;
            self.stage = ClearStage::Broadcast;
        } else {
            self.report.verification = list;
            self.stage = ClearStage::Done;
        }
    }

    /// Take what the broadcast gave: the addresses that answered, or why it failed.
    fn record_broadcast(&mut self, functional: Result<Vec<u8>, ClientError>)
        requires
            sequence_inv(old(self)@),
            sequence_step(old(self)@) is Broadcast,
        ensures
            final(self)@ == broadcast(
                old(self)@,
                crate::client::error::outcome_view(functional),
            ),
            sequence_inv(final(self)@),
    {
        let pending = match &functional {
            Ok(answers) => find_stragglers(self.report.before.as_slice(), answers.as_slice()),
            Err(_) => {
                let none: Vec<u8> = Vec::new();
                assert(none@ =~= Seq::<u8>::empty());
                find_stragglers(self.report.before.as_slice(), none.as_slice())
            },
        };
        self.pending = pending;
        self.report.functional = functional;
        self.stage = ClearStage::Stragglers;
        self.move_on();
    }

    /// Take what clearing one ECU by itself gave.
    fn record_straggler(&mut self, report: ClearReport)
        requires
            sequence_inv(old(self)@),
            sequence_step(old(self)@) is ClearEcu,
        ensures
            final(self)@ == straggled(old(self)@, report@),
            sequence_inv(final(self)@),
    {
        let ghost before = self@.report.stragglers;
        let ghost view = report@;
        self.report.stragglers.push(report);
        assert(clear_reports_view(self.report.stragglers@) =~= before.push(view));
        self.move_on();
    }

    /// Take what running one supplier job gave: why it did not run, if so.
    fn record_job(&mut self, error: Option<String>)
        requires
            sequence_inv(old(self)@),
            sequence_step(old(self)@) is RunJob,
        ensures
            final(self)@ == job_run(old(self)@, crate::text::opt_view(error)),
            sequence_inv(final(self)@),
    {
        let ghost jobs = self@.report.supplier_jobs;
        let job = self.report.supplier_jobs[self.ran].job;
        assert(jobs[self.ran as int] == self.report.supplier_jobs@[self.ran as int]@);
        let report = SupplierJobReport { job, not_run: error };
        let ghost view = report@;
        self.report.supplier_jobs.set(self.ran, report);
        assert(crate::client::supplier::reports_view(self.report.supplier_jobs@) =~= jobs.update(
            self.ran as int,
            view,
        ));
        assert(self.ran < self.report.supplier_jobs.len());
        self.ran = self.ran + 1;
        self.move_on();
    }

    /// Take what clearing the gateway's store gave.
    fn record_store(&mut self, result: Result<(), ClientError>)
        requires
            sequence_inv(old(self)@),
            sequence_step(old(self)@) is ClearGatewayStore,
        ensures
            final(self)@ == store_cleared(old(self)@, result),
            sequence_inv(final(self)@),
    {
        self.report.gateway_zfs = result;
        self.stage = ClearStage::ClampCycle;
    }

    /// Take what the terminal-15 cycle gave.
    fn record_clamp(&mut self, result: Result<(), ClientError>)
        requires
            sequence_inv(old(self)@),
            sequence_step(old(self)@) is CycleTerminal15,
        ensures
            final(self)@ == clamped(old(self)@, result),
            sequence_inv(final(self)@),
    {
        self.report.clamp_cycle = match result {
            Ok(_) => Ok(()),
            Err(error) => {
                let restored = match &error {
                    ClientError::ClampSwitch { restored, .. } => *restored,
                    _ => true,
                };
                Err(ClampCycleFailure { restored, error })
            },
        };
        self.stage = ClearStage::SettleBefore;
    }

    /// A settle is over.
    fn rested(&mut self)
        requires
            sequence_inv(old(self)@),
            sequence_step(old(self)@) is Sleep,
        ensures
            final(self)@ == settled(old(self)@),
            sequence_inv(final(self)@),
    {
        self.stage = if self.stage == ClearStage::SettleBefore {
            ClearStage::Reident
        } else {
            ClearStage::Verify
        };
    }

    /// Take what reading the gateway's ECU list gave: its addresses.
    fn record_list(&mut self, reident: Result<Vec<u8>, ClientError>)
        requires
            sequence_inv(old(self)@),
            sequence_step(old(self)@) is ReadEcuList,
        ensures
            final(self)@ == relisted(old(self)@, crate::client::error::outcome_view(reident)),
            sequence_inv(final(self)@),
    {
        self.report.reident = reident;
        self.stage = ClearStage::SettleAfter;
    }

    /// The report as it stands.
    fn finish(self) -> (r: ClearSequenceReport)
        ensures
            r@ == self@.report,
    {
        self.report
    }
}

/// The whole-vehicle clear over the fitted ECUs: read everything, broadcast one clear, clear the
/// silent ones by themselves, run the supplier jobs, clear the gateway's store, cycle terminal 15,
/// settle, re-identify, settle, and read everything again.
#[derive(Debug)]
pub struct ClearSequence {
    state: SequenceState,
}

impl View for ClearSequence {
    type V = SequenceView;

    closed spec fn view(&self) -> SequenceView {
        self.state@
    }
}

impl ClearSequence {
    /// What holds at every step of the sequence.
    #[verifier::type_invariant]
    spec fn well_ordered(self) -> bool {
        sequence_inv(self@)
    }

    /// Start a whole-vehicle clear. `runner` tells whether supplier jobs can be run.
    pub fn clear_faults_all(addresses: &[u8], vehicle: &VehicleComposition, runner: bool) -> (r:
        ClearSequence)
        ensures
            r@ == sequence_start(addresses@, *vehicle, runner),
            sequence_inv(r@),
    {
        ClearSequence { state: SequenceState::start(addresses, vehicle, runner) }
    }

    /// What to do next.
    pub fn next(&self) -> (r: SequenceStep)
        ensures
            r@ == sequence_step(self@),
    {
        proof {
            use_type_invariant(self);
        }
        self.state.next()
    }

    /// Take what a scan gave.
    pub fn record_scan(&mut self, list: Vec<EcuFaults>)
        requires
            sequence_step(old(self)@) is Scan,
        ensures
            final(self)@ == scanned(old(self)@, faults_view(list@)),
            sequence_inv(final(self)@),
    {
        proof {
            use_type_invariant(&*self);
        }
        let mut state = SequenceState::idle();
        std::mem::swap(&mut state, &mut self.state);
        state.record_scan(list);
        self.state = state;
    }

    /// Take what the broadcast gave: the addresses that answered, or why it failed.
    pub fn record_broadcast(&mut self, functional: Result<Vec<u8>, ClientError>)
        requires
            sequence_step(old(self)@) is Broadcast,
        ensures
            final(self)@ == broadcast(
                old(self)@,
                crate::client::error::outcome_view(functional),
            ),
            sequence_inv(final(self)@),
    {
        proof {
            use_type_invariant(&*self);
        }
        let mut state = SequenceState::idle();
        std::mem::swap(&mut state, &mut self.state);
        state.record_broadcast(functional);
        self.state = state;
    }

    /// Take what clearing one ECU by itself gave.
    pub fn record_straggler(&mut self, report: ClearReport)
        requires
            sequence_step(old(self)@) is ClearEcu,
        ensures
            final(self)@ == straggled(old(self)@, report@),
            sequence_inv(final(self)@),
    {
        proof {
            use_type_invariant(&*self);
        }
        let mut state = SequenceState::idle();
        std::mem::swap(&mut state, &mut self.state);
        state.record_straggler(report);
        self.state = state;
    }

    /// Take what running one supplier job gave: why it did not run, if so.
    pub fn record_job(&mut self, error: Option<String>)
        requires
            sequence_step(old(self)@) is RunJob,
        ensures
            final(self)@ == job_run(old(self)@, crate::text::opt_view(error)),
            sequence_inv(final(self)@),
    {
        proof {
            use_type_invariant(&*self);
        }
        let mut state = SequenceState::idle();
        std::mem::swap(&mut state, &mut self.state);
        state.record_job(error);
        self.state = state;
    }

    /// Take what clearing the gateway's store gave.
    pub fn record_store(&mut self, result: Result<(), ClientError>)
        requires
            sequence_step(old(self)@) is ClearGatewayStore,
        ensures
            final(self)@ == store_cleared(old(self)@, result),
            sequence_inv(final(self)@),
    {
        proof {
            use_type_invariant(&*self);
        }
        let mut state = SequenceState::idle();
        std::mem::swap(&mut state, &mut self.state);
        state.record_store(result);
        self.state = state;
    }

    /// Take what the terminal-15 cycle gave.
    pub fn record_clamp(&mut self, result: Result<(), ClientError>)
        requires
            sequence_step(old(self)@) is CycleTerminal15,
        ensures
            final(self)@ == clamped(old(self)@, result),
            sequence_inv(final(self)@),
    {
        proof {
            use_type_invariant(&*self);
        }
        let mut state = SequenceState::idle();
        std::mem::swap(&mut state, &mut self.state);
        state.record_clamp(result);
        self.state = state;
    }

    /// A settle is over.
    pub fn rested(&mut self)
        requires
            sequence_step(old(self)@) is Sleep,
        ensures
            final(self)@ == settled(old(self)@),
            sequence_inv(final(self)@),
    {
        proof {
            use_type_invariant(&*self);
        }
        let mut state = SequenceState::idle();
        std::mem::swap(&mut state, &mut self.state);
        state.rested();
        self.state = state;
    }

    /// Take what reading the gateway's ECU list gave: its addresses.
    pub fn record_list(&mut self, reident: Result<Vec<u8>, ClientError>)
        requires
            sequence_step(old(self)@) is ReadEcuList,
        ensures
            final(self)@ == relisted(old(self)@, crate::client::error::outcome_view(reident)),
            sequence_inv(final(self)@),
    {
        proof {
            use_type_invariant(&*self);
        }
        let mut state = SequenceState::idle();
        std::mem::swap(&mut state, &mut self.state);
        state.record_list(reident);
        self.state = state;
    }

    /// The report as it stands.
    pub fn finish(self) -> (r: ClearSequenceReport)
        ensures
            r@ == self@.report,
    {
        self.state.finish()
    }
}

// ---------------------------------------------------------------------------
// Verdicts
// ---------------------------------------------------------------------------

/// One ECU's before/after verdict across a whole clear sequence.
#[derive(Debug)]
pub struct EcuClearVerdict {
    /// The diagnostic address.
    pub address: u8,
    /// Every DTC stored before the clear: the record of what was discarded.
    pub before: Vec<Dtc>,
    /// Whether this ECU answered the functional broadcast.
    pub answered_broadcast: bool,
    /// Whether this ECU was additionally cleared by itself.
    pub cleared_physically: bool,
    /// The faults still stored after the whole sequence.
    pub after: Vec<Dtc>,
    /// True if the ECU was read both before and after, and nothing remains.
    pub verified_clean: bool,
    /// The first failure recorded for this ECU, if any.
    pub error: Option<StepFailure>,
}

/// What an [`EcuClearVerdict`] holds.
#[verifier::ext_equal]
pub struct VerdictView {
    pub address: u8,
    pub before: Seq<Dtc>,
    pub answered_broadcast: bool,
    pub cleared_physically: bool,
    pub after: Seq<Dtc>,
    pub verified_clean: bool,
    pub error: Option<StepFailure>,
}

impl View for EcuClearVerdict {
    type V = VerdictView;

    open spec fn view(&self) -> VerdictView {
        VerdictView {
            address: self.address,
            before: self.before@,
            answered_broadcast: self.answered_broadcast,
            cleared_physically: self.cleared_physically,
            after: self.after@,
            verified_clean: self.verified_clean,
            error: self.error,
        }
    }
}

/// The views of verdicts.
pub open spec fn verdicts_view(v: Seq<EcuClearVerdict>) -> Seq<VerdictView> {
    Seq::new(v.len(), |i: int| v[i]@)
}

/// The first entry for `address`.
pub open spec fn entry_for(list: Seq<EcuFaultsView>, address: u8) -> Option<EcuFaultsView>
    decreases list.len(),
{
    if list.len() == 0 {
        None
    } else if list[0].address == address {
        Some(list[0])
    } else {
        entry_for(list.skip(1), address)
    }
}

/// The first straggler report for `address`.
pub open spec fn straggler_for(list: Seq<ClearReportView>, address: u8) -> Option<ClearReportView>
    decreases list.len(),
{
    if list.len() == 0 {
        None
    } else if list[0].address == address {
        Some(list[0])
    } else {
        straggler_for(list.skip(1), address)
    }
}

/// Whether a straggler was cleared: its pass went on to the read after the clear.
pub open spec fn was_cleared(straggler: ClearReportView) -> bool {
    match straggler.error {
        Some(failure) => failure.step == ClearStep::PostRead,
        None => true,
    }
}

/// A plain read's failure.
pub open spec fn read_failure(ecu: EcuFaultsView) -> Option<StepFailure> {
    match ecu.error {
        Some(error) => Some(StepFailure { step: ClearStep::Read, error }),
        None => None,
    }
}

/// The first failure recorded for an ECU: the read before comes first, as it is why nothing was
/// cleared.
pub open spec fn first_failure(
    before: EcuFaultsView,
    straggler: Option<ClearReportView>,
    after: Option<EcuFaultsView>,
) -> Option<StepFailure> {
    if before.error is Some {
        read_failure(before)
    } else if straggler is Some && straggler->0.error is Some {
        straggler->0.error
    } else {
        match after {
            Some(ecu) => read_failure(ecu),
            None => None,
        }
    }
}

/// The verdict on one ECU. Clean takes evidence on both sides: an ECU that could not be read
/// afterwards is unknown, not clean.
pub open spec fn verdict_of(report: SequenceReportView, before: EcuFaultsView) -> VerdictView {
    let straggler = straggler_for(report.stragglers, before.address);
    let after = entry_for(report.verification, before.address);
    VerdictView {
        address: before.address,
        before: before.faults,
        answered_broadcast: answered(report.functional).contains(before.address),
        cleared_physically: straggler matches Some(pass) && was_cleared(pass),
        after: match after {
            Some(ecu) => ecu.faults,
            None => Seq::<Dtc>::empty(),
        },
        verified_clean: before.error is None && (after matches Some(ecu) && ecu.error is None
            && ecu.faults.len() == 0),
        error: first_failure(before, straggler, after),
    }
}

/// The verdicts of a sequence, one per ECU read before.
pub open spec fn verdicts_of(report: SequenceReportView) -> Seq<VerdictView> {
    Seq::new(report.before.len(), |i: int| verdict_of(report, report.before[i]))
}

/// An ECU is called clean only if it was read before and after without error and nothing remains.
pub proof fn law_clean_takes_evidence_on_both_sides(
    report: SequenceReportView,
    before: EcuFaultsView,
)
    ensures
        verdict_of(report, before).verified_clean ==> before.error is None && verdict_of(
            report,
            before,
        ).after.len() == 0 && (entry_for(report.verification, before.address) matches Some(ecu)
            && ecu.error is None),
        entry_for(report.verification, before.address) is None ==> !verdict_of(
            report,
            before,
        ).verified_clean,
{
}

/// The position of the first entry for `address`.
fn find_entry(list: &[EcuFaults], address: u8) -> (r: Option<usize>)
    ensures
        match r {
            Some(i) => i < list@.len() && entry_for(faults_view(list@), address) == Some(
                list@[i as int]@,
            ),
            None => entry_for(faults_view(list@), address) is None,
        },
{
    let ghost views = faults_view(list@);
    let mut i: usize = 0;
    assert(views.skip(0) =~= views);
    while i < list.len()
        invariant
            i <= list.len(),
            views == faults_view(list@),
            entry_for(views, address) == entry_for(views.skip(i as int), address),
        decreases list.len() - i,
    {
        assert(views.skip(i as int)[0] == list@[i as int]@);
        if list[i].address == address {
            return Some(i);
        }
        assert(views.skip(i as int).skip(1) =~= views.skip(i + 1));
        i = i + 1;
    }
    None
}

/// The position of the first straggler report for `address`.
fn find_straggler(list: &[ClearReport], address: u8) -> (r: Option<usize>)
    ensures
        match r {
            Some(i) => i < list@.len() && straggler_for(clear_reports_view(list@), address) == Some(
                list@[i as int]@,
            ),
            None => straggler_for(clear_reports_view(list@), address) is None,
        },
{
    let ghost views = clear_reports_view(list@);
    let mut i: usize = 0;
    assert(views.skip(0) =~= views);
    while i < list.len()
        invariant
            i <= list.len(),
            views == clear_reports_view(list@),
            straggler_for(views, address) == straggler_for(views.skip(i as int), address),
        decreases list.len() - i,
    {
        assert(views.skip(i as int)[0] == list@[i as int]@);
        if list[i].address == address {
            return Some(i);
        }
        assert(views.skip(i as int).skip(1) =~= views.skip(i + 1));
        i = i + 1;
    }
    None
}

/// A plain read's failure.
fn failure_of_read(ecu: &EcuFaults) -> (r: Option<StepFailure>)
    ensures
        r == read_failure(ecu@),
{
    match &ecu.error {
        Some(e) => Some(StepFailure { step: ClearStep::Read, error: copy_error(e) }),
        None => None,
    }
}

impl ClearSequenceReport {
    /// The verdict on one ECU.
    fn ecu_verdict(&self, before: &EcuFaults) -> (r: EcuClearVerdict)
        ensures
            r@ == verdict_of(self@, before@),
    {
        let answered_broadcast = match &self.functional {
            Ok(answers) => contains_byte(answers.as_slice(), before.address),
            Err(_) => false,
        };
        let straggler = find_straggler(self.stragglers.as_slice(), before.address);
        let after = find_entry(self.verification.as_slice(), before.address);
        let straggler_error: Option<StepFailure> = match straggler {
            Some(i) => match &self.stragglers[i].error {
                Some(f) => Some(StepFailure { step: f.step, error: copy_error(&f.error) }),
                None => None,
            },
            None => None,
        };
        let cleared_physically = match straggler {
            Some(i) => match &self.stragglers[i].error {
                Some(f) => f.step == ClearStep::PostRead,
                None => true,
            },
            None => false,
        };
        let error = if before.error.is_some() {
            failure_of_read(before)
        } else if straggler_error.is_some() {
            straggler_error
        } else {
            match after {
                Some(i) => failure_of_read(&self.verification[i]),
                None => None,
            }
        };
        let remaining = match after {
            Some(i) => copy_dtcs(self.verification[i].faults.as_slice()),
            None => {
                let none: Vec<Dtc> = Vec::new();
                assert(none@ =~= Seq::<Dtc>::empty());
                none
            },
        };
        let read_after = match after {
            Some(i) => self.verification[i].error.is_none(),
            None => false,
        };
        let verified_clean = before.error.is_none() && read_after && remaining.len() == 0;
        EcuClearVerdict {
            address: before.address,
            before: copy_dtcs(before.faults.as_slice()),
            answered_broadcast,
            cleared_physically,
            after: remaining,
            verified_clean,
            error,
        }
    }

    /// Roll the phases up into one before/after verdict per ECU.
    pub fn ecu_verdicts(&self) -> (r: Vec<EcuClearVerdict>)
        ensures
            verdicts_view(r@) == verdicts_of(self@),
    {
        let mut out: Vec<EcuClearVerdict> = Vec::new();
        let mut i: usize = 0;
        while i < self.before.len()
            invariant
                i <= self.before.len(),
                verdicts_view(out@) == verdicts_of(self@).take(i as int),
            decreases self.before.len() - i,
        {
            let ghost so_far = verdicts_view(out@);
            let verdict = self.ecu_verdict(&self.before[i]);
            let ghost view = verdict@;
            assert(self@.before[i as int] == self.before@[i as int]@);
            out.push(verdict);
            assert(verdicts_view(out@) =~= so_far.push(view));
            assert(verdicts_of(self@).take(i + 1) =~= so_far.push(view));
            i = i + 1;
        }
        assert(verdicts_of(self@).take(i as int) =~= verdicts_of(self@));
        out
    }
}

// ---------------------------------------------------------------------------
// What the procedures amount to
// ---------------------------------------------------------------------------

/// A scan of `addresses` that was given these results, one per ECU read.
pub open spec fn scan_run(
    addresses: Seq<u8>,
    results: Seq<Result<EcuFaultBundle, ClientError>>,
) -> ScanView
    decreases results.len(),
{
    if results.len() == 0 {
        scan_start(addresses)
    } else {
        scan_recorded(scan_run(addresses, results.drop_last()), results.last())
    }
}

/// Whether an entry says of an ECU what reading it gave: all it returned, or only why it failed.
pub open spec fn tells(
    entry: EcuFaultsView,
    address: u8,
    result: Result<EcuFaultBundle, ClientError>,
) -> bool {
    &&& entry.address == address
    &&& (result matches Ok(bundle) ==> entry.faults == bundle.faults@ && entry.info == bundle.info@
        && entry.info_supported == bundle.info_supported && entry.error is None)
    &&& (result matches Err(e) ==> entry.faults.len() == 0 && entry.info.len() == 0
        && !entry.info_supported && entry.error == Some(e))
}

proof fn lemma_put_keeps_entries(list: Seq<EcuFaultsView>, entry: EcuFaultsView) -> (at: int)
    ensures
        0 <= at <= list.len(),
        put_by_address(list, entry) == list.insert(at, entry),
    decreases list.len(),
{
    if list.len() == 0 || list.last().address <= entry.address {
        assert(list.insert(list.len() as int, entry) =~= list.push(entry));
        list.len() as int
    } else {
        let at = lemma_put_keeps_entries(list.drop_last(), entry);
        assert(list.drop_last().insert(at, entry).push(list.last()) =~= list.insert(at, entry));
        at
    }
}

/// Whether some entry of a list tells what reading the ECU at `address` gave.
pub open spec fn is_told(
    list: Seq<EcuFaultsView>,
    address: u8,
    result: Result<EcuFaultBundle, ClientError>,
) -> bool {
    exists|j: int| 0 <= j < list.len() && tells(#[trigger] list[j], address, result)
}

/// Whether an entry tells what one of these readings gave.
pub open spec fn is_of_a_reading(
    entry: EcuFaultsView,
    addresses: Seq<u8>,
    results: Seq<Result<EcuFaultBundle, ClientError>>,
) -> bool {
    exists|k: int| 0 <= k < results.len() && tells(entry, addresses[k], #[trigger] results[k])
}

proof fn lemma_put_tells(
    list: Seq<EcuFaultsView>,
    addresses: Seq<u8>,
    results: Seq<Result<EcuFaultBundle, ClientError>>,
)
    requires
        0 < results.len() <= addresses.len(),
        forall|k: int|
            0 <= k < results.len() - 1 ==> is_told(list, addresses[k], #[trigger] results[k]),
        forall|j: int|
            0 <= j < list.len() ==> is_of_a_reading(
                #[trigger] list[j],
                addresses,
                results.drop_last(),
            ),
    ensures
        ({
            let put = put_by_address(
                list,
                entry_of(addresses[results.len() - 1], results.last()),
            );
            &&& forall|k: int|
                0 <= k < results.len() ==> is_told(put, addresses[k], #[trigger] results[k])
            &&& forall|j: int|
                0 <= j < put.len() ==> is_of_a_reading(#[trigger] put[j], addresses, results)
        }),
{
    let n = results.len() - 1;
    let entry = entry_of(addresses[n], results.last());
    let put = put_by_address(list, entry);
    let at = lemma_put_keeps_entries(list, entry);
    assert(put[at] == entry);
    assert forall|k: int| 0 <= k < results.len() implies is_told(
        put,
        addresses[k],
        #[trigger] results[k],
    ) by {
        if k < n {
            assert(is_told(list, addresses[k], results[k]));
            let j = choose|j: int|
                0 <= j < list.len() && tells(#[trigger] list[j], addresses[k], results[k]);
            let moved = if j < at {
                j
            } else {
                j + 1
            };
            assert(put[moved] == list[j]);
        } else {
            assert(tells(put[at], addresses[k], results[k]));
        }
    }
    assert forall|j: int| 0 <= j < put.len() implies is_of_a_reading(
        #[trigger] put[j],
        addresses,
        results,
    ) by {
        if j == at {
            assert(tells(put[j], addresses[n], results[n]));
        } else {
            let old = if j < at {
                j
            } else {
                j - 1
            };
            assert(put[j] == list[old]);
            assert(is_of_a_reading(list[old], addresses, results.drop_last()));
            let k = choose|k: int|
                0 <= k < n && tells(list[old], addresses[k], #[trigger] results.drop_last()[k]);
            assert(results.drop_last()[k] == results[k]);
        }
    }
}

/// A scan asks each address in turn. When every one was asked, its list ascends by address and
/// has one entry per address, and each entry tells what reading that ECU gave: nothing is lost,
/// made up or put to another ECU's account.
pub proof fn law_a_scan_tells_what_each_ecu_gave(
    addresses: Seq<u8>,
    results: Seq<Result<EcuFaultBundle, ClientError>>,
)
    requires
        results.len() <= addresses.len(),
    ensures
        scan_next(scan_run(addresses, results)) == (if results.len() < addresses.len() {
            Some(addresses[results.len() as int])
        } else {
            None
        }),
        by_address(scan_run(addresses, results).list),
        scan_run(addresses, results).list.len() == results.len(),
        forall|k: int|
            0 <= k < results.len() ==> is_told(
                scan_run(addresses, results).list,
                addresses[k],
                #[trigger] results[k],
            ),
        forall|j: int|
            0 <= j < results.len() ==> is_of_a_reading(
                #[trigger] scan_run(addresses, results).list[j],
                addresses,
                results,
            ),
    decreases results.len(),
{
    lemma_scan_run(addresses, results);
    if results.len() > 0 {
        let short = results.drop_last();
        let before = scan_run(addresses, short);
        law_a_scan_tells_what_each_ecu_gave(addresses, short);
        lemma_scan_run(addresses, short);
        lemma_put_by_address(
            before.list,
            entry_of(addresses[results.len() - 1], results.last()),
        );
        assert forall|k: int| 0 <= k < results.len() - 1 implies is_told(
            before.list,
            addresses[k],
            #[trigger] results[k],
        ) by {
            assert(short[k] == results[k]);
        }
        lemma_put_tells(before.list, addresses, results);
    }
}

proof fn lemma_scan_run(
    addresses: Seq<u8>,
    results: Seq<Result<EcuFaultBundle, ClientError>>,
)
    requires
        results.len() <= addresses.len(),
    ensures
        scan_run(addresses, results).addresses == addresses,
        scan_run(addresses, results).read == results.len(),
    decreases results.len(),
{
    if results.len() > 0 {
        lemma_scan_run(addresses, results.drop_last());
    }
}

/// A verified clear of one ECU reads, clears and reads again, each only where the step before
/// succeeded. Its report keeps what the first read gave and what the second did, names the step
/// that failed, and calls the ECU clean exactly where all three succeeded and nothing came back.
pub proof fn law_a_verified_clear_reads_clears_and_reads(
    target: u8,
    before: Result<Seq<Dtc>, ClientError>,
    clear: Option<ClientError>,
    after: Result<Seq<Dtc>, ClientError>,
)
    ensures
        ({
            let asked = clear_start(target);
            let read = clear_read_recorded(asked, before);
            let cleared = clear_cleared(read, clear);
            let done = clear_read_recorded(cleared, after);
            &&& clear_action(asked) == ClearAction::ReadFaults
            &&& (before matches Err(error) ==> clear_action(read) == ClearAction::Done
                && read.report.error == Some(StepFailure { step: ClearStep::PreRead, error })
                && read.report.before.len() == 0 && read.report.after_relevant.len() == 0
                && !read.report.verified_clean && read.report.address == target)
            &&& (before matches Ok(stored) ==> {
                &&& clear_action(read) == ClearAction::Clear
                &&& (clear matches Some(error) ==> clear_action(cleared) == ClearAction::Done
                    && cleared.report.error == Some(StepFailure { step: ClearStep::Clear, error })
                    && cleared.report.before == stored && cleared.report.after_relevant.len() == 0
                    && !cleared.report.verified_clean && cleared.report.address == target)
                &&& (clear is None ==> {
                    &&& clear_action(cleared) == ClearAction::ReadFaults
                    &&& clear_action(done) == ClearAction::Done
                    &&& done.report.address == target
                    &&& done.report.before == stored
                    &&& (after matches Ok(left) ==> done.report.after_relevant == left
                        && done.report.verified_clean == (left.len() == 0)
                        && done.report.error is None)
                    &&& (after matches Err(error) ==> done.report.after_relevant.len() == 0
                        && !done.report.verified_clean && done.report.error == Some(
                        StepFailure { step: ClearStep::PostRead, error },
                    ))
                })
            })
        }),
{
}

/// The sequence after these straggler passes.
pub open spec fn passes_run(v: SequenceView, passes: Seq<ClearReportView>) -> SequenceView
    decreases passes.len(),
{
    if passes.len() == 0 {
        v
    } else {
        straggled(passes_run(v, passes.drop_last()), passes.last())
    }
}

/// The sequence after supplier jobs that gave these errors, or none.
pub open spec fn jobs_run(v: SequenceView, errors: Seq<Option<Seq<char>>>) -> SequenceView
    decreases errors.len(),
{
    if errors.len() == 0 {
        v
    } else {
        job_run(jobs_run(v, errors.drop_last()), errors.last())
    }
}

/// The stragglers are the ECUs that were read before as faulty or unreadable and did not answer,
/// each once per reading and in the order of the readings.
pub proof fn law_stragglers_keep_the_order_of_the_readings(
    before: Seq<EcuFaultsView>,
    answers: Seq<u8>,
)
    ensures
        stragglers_of(before, answers) == before.filter(
            |ecu: EcuFaultsView|
                !(ecu.faults.len() == 0 && ecu.error is None) && !answers.contains(ecu.address),
        ).map_values(|ecu: EcuFaultsView| ecu.address),
    decreases before.len(),
{
    reveal(Seq::filter);
    let keep = |ecu: EcuFaultsView|
        !(ecu.faults.len() == 0 && ecu.error is None) && !answers.contains(ecu.address);
    let address = |ecu: EcuFaultsView| ecu.address;
    if before.len() > 0 {
        law_stragglers_keep_the_order_of_the_readings(before.drop_last(), answers);
        let first = before.drop_last().filter(keep);
        assert(first.push(before.last()).map_values(address) =~= first.map_values(address).push(
            before.last().address,
        ));
    }
    assert(stragglers_of(before, answers) =~= before.filter(keep).map_values(address));
}

proof fn lemma_passes_run(v: SequenceView, passes: Seq<ClearReportView>)
    requires
        v.stage == ClearStage::Stragglers,
        v.report.stragglers.len() == 0,
        v.ran == 0,
        0 < v.pending.len(),
        passes.len() <= v.pending.len(),
    ensures
        passes.len() < v.pending.len() ==> passes_run(v, passes) == (SequenceView {
            report: SequenceReportView { stragglers: passes, ..v.report },
            ..v
        }),
        passes.len() == v.pending.len() ==> passes_run(v, passes) == moved_on(
            SequenceView {
                stage: ClearStage::Suppliers,
                report: SequenceReportView { stragglers: passes, ..v.report },
                ..v
            },
        ),
    decreases passes.len(),
{
    if passes.len() > 0 {
        lemma_passes_run(v, passes.drop_last());
        assert(passes.drop_last().push(passes.last()) =~= passes);
    } else {
        assert(passes =~= v.report.stragglers);
    }
}

proof fn lemma_jobs_run(v: SequenceView, errors: Seq<Option<Seq<char>>>)
    requires
        v.stage == ClearStage::Suppliers,
        v.ran == 0,
        v.runner,
        0 < v.report.supplier_jobs.len(),
        errors.len() <= v.report.supplier_jobs.len(),
    ensures
        ({
            let w = jobs_run(v, errors);
            let jobs = w.report.supplier_jobs;
            &&& w.ran == errors.len()
            &&& w.stage == if errors.len() < v.report.supplier_jobs.len() {
                ClearStage::Suppliers
            } else {
                ClearStage::GatewayStore
            }
            &&& jobs.len() == v.report.supplier_jobs.len()
            &&& forall|k: int|
                0 <= k < jobs.len() ==> (#[trigger] jobs[k]).job == v.report.supplier_jobs[k].job
                    && jobs[k].not_run == if k < errors.len() {
                    errors[k]
                } else {
                    v.report.supplier_jobs[k].not_run
                }
            &&& w == (SequenceView {
                stage: w.stage,
                ran: w.ran,
                report: SequenceReportView { supplier_jobs: jobs, ..v.report },
                ..v
            })
        }),
    decreases errors.len(),
{
    if errors.len() > 0 {
        lemma_jobs_run(v, errors.drop_last());
    }
}

/// The whole clear, from beginning to end. It reads the fitted list, broadcasts, clears each
/// straggler by itself, runs each planned supplier job where there is a runner, clears the
/// gateway's store, cycles terminal 15, settles for half a second, lists the ECUs again, settles
/// for a fifth of a second and reads again, over what was listed or else over the fitted list. Its
/// report is what each of these steps brought, each in its own place.
pub proof fn law_the_whole_clear_runs_in_order_and_reports_each_step(
    addresses: Seq<u8>,
    vehicle: VehicleComposition,
    runner: bool,
    before: Seq<EcuFaultsView>,
    functional: Result<Seq<u8>, ClientError>,
    passes: Seq<ClearReportView>,
    errors: Seq<Option<Seq<char>>>,
    store: Result<(), ClientError>,
    clamp: Result<(), ClientError>,
    reident: Result<Seq<u8>, ClientError>,
    verification: Seq<EcuFaultsView>,
    k: int,
)
    requires
        passes.len() == stragglers_of(before, answered(functional)).len(),
        errors.len() == (if runner {
            crate::client::supplier::planned_reports(vehicle).len()
        } else {
            0
        }),
    ensures
        ({
            let planned = crate::client::supplier::planned_reports(vehicle);
            let pending = stragglers_of(before, answered(functional));
            let started = sequence_start(addresses, vehicle, runner);
            let read = scanned(started, before);
            let sent = broadcast(read, functional);
            let passed = passes_run(sent, passes);
            let ran = jobs_run(passed, errors);
            let stored = store_cleared(ran, store);
            let cycled = clamped(stored, clamp);
            let rested = settled(cycled);
            let listed = relisted(rested, reident);
            let ready = settled(listed);
            let done = scanned(ready, verification);
            &&& sequence_step(started) == SequenceStepView::Scan(addresses)
            &&& sequence_step(read) is Broadcast
            &&& (0 <= k < passes.len() ==> sequence_step(passes_run(sent, passes.take(k)))
                == SequenceStepView::ClearEcu(pending[k]))
            &&& (0 <= k < errors.len() ==> sequence_step(jobs_run(passed, errors.take(k)))
                == SequenceStepView::RunJob(planned[k].job))
            &&& sequence_step(ran) is ClearGatewayStore
            &&& sequence_step(stored) is CycleTerminal15
            &&& sequence_step(cycled) == SequenceStepView::Sleep(500)
            &&& sequence_step(rested) is ReadEcuList
            &&& sequence_step(listed) == SequenceStepView::Sleep(200)
            &&& sequence_step(ready) == SequenceStepView::Scan(
                match reident {
                    Ok(found) => if found.len() > 0 {
                        found
                    } else {
                        addresses
                    },
                    Err(_) => addresses,
                },
            )
            &&& sequence_step(done) is Done
            &&& done.report.before == before
            &&& done.report.functional == functional
            &&& done.report.stragglers == passes
            &&& done.report.supplier_jobs.len() == planned.len()
            &&& (0 <= k < planned.len() ==> done.report.supplier_jobs[k].job == planned[k].job
                && done.report.supplier_jobs[k].not_run == if runner {
                errors[k]
            } else {
                planned[k].not_run
            })
            &&& done.report.gateway_zfs == store
            &&& (clamp is Ok <==> done.report.clamp_cycle is Ok)
            &&& (clamp matches Err(error) ==> (done.report.clamp_cycle matches Err(failure)
                && failure.error == error && (failure.restored <==> !(error matches
                ClientError::ClampSwitch { restored, .. } && !restored))))
            &&& done.report.reident == reident
            &&& done.report.verification == verification
        }),
{
    let planned = crate::client::supplier::planned_reports(vehicle);
    let pending = stragglers_of(before, answered(functional));
    let read = scanned(sequence_start(addresses, vehicle, runner), before);
    let sent = broadcast(read, functional);
    if pending.len() > 0 {
        lemma_passes_run(sent, passes);
        if 0 <= k < passes.len() {
            lemma_passes_run(sent, passes.take(k));
        }
    } else {
        assert(passes =~= Seq::<ClearReportView>::empty());
    }
    let passed = passes_run(sent, passes);
    if runner && planned.len() > 0 {
        lemma_jobs_run(passed, errors);
        if 0 <= k < errors.len() {
            lemma_jobs_run(passed, errors.take(k));
        }
    }
}

proof fn lemma_entry_for(list: Seq<EcuFaultsView>, address: u8, k: int)
    requires
        0 <= k <= list.len(),
        forall|j: int| 0 <= j < k ==> (#[trigger] list[j]).address != address,
        k < list.len() ==> list[k].address == address,
    ensures
        entry_for(list, address) == (if k < list.len() {
            Some(list[k])
        } else {
            None
        }),
    decreases list.len(),
{
    if k > 0 {
        assert(list[0].address != address);
        assert forall|j: int| 0 <= j < k - 1 implies (#[trigger] list.skip(1)[j]).address != address by {
            assert(list.skip(1)[j] == list[j + 1]);
        }
        lemma_entry_for(list.skip(1), address, k - 1);
    }
}

proof fn lemma_straggler_for(list: Seq<ClearReportView>, address: u8, k: int)
    requires
        0 <= k <= list.len(),
        forall|j: int| 0 <= j < k ==> (#[trigger] list[j]).address != address,
        k < list.len() ==> list[k].address == address,
    ensures
        straggler_for(list, address) == (if k < list.len() {
            Some(list[k])
        } else {
            None
        }),
    decreases list.len(),
{
    if k > 0 {
        assert(list[0].address != address);
        assert forall|j: int| 0 <= j < k - 1 implies (#[trigger] list.skip(1)[j]).address != address by {
            assert(list.skip(1)[j] == list[j + 1]);
        }
        lemma_straggler_for(list.skip(1), address, k - 1);
    }
}

/// The verdict on an ECU that was read again is what that read found: the faults still stored are
/// exactly those that the verification read recorded for its address, and it is clean if and only
/// if neither read failed and the verification read recorded no fault. `k` is the first entry of
/// the verification read for the address.
pub proof fn law_a_verdict_is_what_the_verification_found(
    report: SequenceReportView,
    i: int,
    k: int,
)
    requires
        0 <= i < report.before.len(),
        0 <= k < report.verification.len(),
        report.verification[k].address == report.before[i].address,
        forall|j: int|
            0 <= j < k ==> (#[trigger] report.verification[j]).address != report.before[i].address,
    ensures
        verdicts_of(report).len() == report.before.len(),
        verdicts_of(report)[i].address == report.before[i].address,
        verdicts_of(report)[i].before == report.before[i].faults,
        verdicts_of(report)[i].after == report.verification[k].faults,
        verdicts_of(report)[i].verified_clean <==> report.before[i].error is None
            && report.verification[k].error is None && report.verification[k].faults.len() == 0,
{
    lemma_entry_for(report.verification, report.before[i].address, k);
}

/// An ECU that the verification read does not list is unknown: nothing is said to remain, and it
/// is not clean.
pub proof fn law_an_ecu_that_was_not_read_again_is_unknown(report: SequenceReportView, i: int)
    requires
        0 <= i < report.before.len(),
        forall|j: int|
            0 <= j < report.verification.len() ==> (#[trigger] report.verification[j]).address
                != report.before[i].address,
    ensures
        verdicts_of(report)[i].before == report.before[i].faults,
        verdicts_of(report)[i].after.len() == 0,
        !verdicts_of(report)[i].verified_clean,
{
    lemma_entry_for(
        report.verification,
        report.before[i].address,
        report.verification.len() as int,
    );
}

/// A verdict says who answered the broadcast and who was cleared by itself: an ECU was cleared by
/// itself if and only if it has a straggler pass that failed nowhere before the read after the
/// clear. `k` is the first pass for the address, or the number of passes if there is none.
pub proof fn law_a_verdict_says_how_an_ecu_was_cleared(report: SequenceReportView, i: int, k: int)
    requires
        0 <= i < report.before.len(),
        0 <= k <= report.stragglers.len(),
        forall|j: int|
            0 <= j < k ==> (#[trigger] report.stragglers[j]).address != report.before[i].address,
        k < report.stragglers.len() ==> report.stragglers[k].address == report.before[i].address,
    ensures
        verdicts_of(report)[i].answered_broadcast <==> (report.functional matches Ok(addresses)
            && addresses.contains(report.before[i].address)),
        verdicts_of(report)[i].cleared_physically <==> k < report.stragglers.len()
            && !(report.stragglers[k].error matches Some(failure) && (failure.step
            == ClearStep::PreRead || failure.step == ClearStep::Clear || failure.step
            == ClearStep::Read)),
        report.before[i].error matches Some(error) ==> verdicts_of(report)[i].error == Some(
            StepFailure { step: ClearStep::Read, error },
        ),
        report.before[i].error is None && k < report.stragglers.len()
            && report.stragglers[k].error is Some ==> verdicts_of(report)[i].error
            == report.stragglers[k].error,
{
    lemma_straggler_for(report.stragglers, report.before[i].address, k);
}

/// Where neither the read before nor a straggler pass failed, an ECU's failure is that of the
/// verification read, if any.
pub proof fn law_a_failed_verification_is_named(report: SequenceReportView, i: int, k: int)
    requires
        0 <= i < report.before.len(),
        report.before[i].error is None,
        forall|j: int|
            0 <= j < report.stragglers.len() ==> (#[trigger] report.stragglers[j]).address
                != report.before[i].address || report.stragglers[j].error is None,
        0 <= k <= report.verification.len(),
        forall|j: int|
            0 <= j < k ==> (#[trigger] report.verification[j]).address != report.before[i].address,
        k < report.verification.len() ==> report.verification[k].address
            == report.before[i].address,
    ensures
        verdicts_of(report)[i].error is Some <==> k < report.verification.len()
            && report.verification[k].error is Some,
        k < report.verification.len() ==> (report.verification[k].error matches Some(error)
            ==> verdicts_of(report)[i].error == Some(StepFailure { step: ClearStep::Read, error })),
{
    let address = report.before[i].address;
    lemma_entry_for(report.verification, address, k);
    if straggler_for(report.stragglers, address) is Some {
        lemma_a_straggler_is_listed(report.stragglers, address);
    }
}

proof fn lemma_a_straggler_is_listed(list: Seq<ClearReportView>, address: u8)
    requires
        straggler_for(list, address) is Some,
    ensures
        exists|j: int|
            0 <= j < list.len() && #[trigger] list[j] == straggler_for(list, address)->0
                && list[j].address == address,
    decreases list.len(),
{
    if list[0].address != address {
        lemma_a_straggler_is_listed(list.skip(1), address);
        let j = choose|j: int|
            0 <= j < list.skip(1).len() && #[trigger] list.skip(1)[j] == straggler_for(
                list.skip(1),
                address,
            )->0 && list.skip(1)[j].address == address;
        assert(list[j + 1] == list.skip(1)[j]);
    }
}

/// The model of a value says of each field what the field holds, and a list is modelled item by
/// item, in order.
pub proof fn law_a_model_shows_what_its_value_holds(
    ecu_faults: EcuFaults,
    clear_report: ClearReport,
    clear_sequence_report: ClearSequenceReport,
    ecu_clear_verdict: EcuClearVerdict,
    faults: Seq<EcuFaults>,
    clear_reports: Seq<ClearReport>,
    verdicts: Seq<EcuClearVerdict>,
)
    ensures
        ecu_faults@.address == ecu_faults.address,
        ecu_faults@.faults == ecu_faults.faults@,
        ecu_faults@.info == ecu_faults.info@,
        ecu_faults@.info_supported == ecu_faults.info_supported,
        ecu_faults@.error == ecu_faults.error,
        clear_report@.address == clear_report.address,
        clear_report@.before == clear_report.before@,
        clear_report@.after_relevant == clear_report.after_relevant@,
        clear_report@.verified_clean == clear_report.verified_clean,
        clear_report@.error == clear_report.error,
        clear_sequence_report@.before == faults_view(clear_sequence_report.before@),
        clear_sequence_report@.functional == crate::client::error::outcome_view(
            clear_sequence_report.functional,
        ),
        clear_sequence_report@.stragglers == clear_reports_view(clear_sequence_report.stragglers@),
        clear_sequence_report@.supplier_jobs == crate::client::supplier::reports_view(
            clear_sequence_report.supplier_jobs@,
        ),
        clear_sequence_report@.gateway_zfs == clear_sequence_report.gateway_zfs,
        clear_sequence_report@.clamp_cycle == clear_sequence_report.clamp_cycle,
        clear_sequence_report@.reident == crate::client::error::outcome_view(
            clear_sequence_report.reident,
        ),
        clear_sequence_report@.verification == faults_view(clear_sequence_report.verification@),
        ecu_clear_verdict@.address == ecu_clear_verdict.address,
        ecu_clear_verdict@.before == ecu_clear_verdict.before@,
        ecu_clear_verdict@.answered_broadcast == ecu_clear_verdict.answered_broadcast,
        ecu_clear_verdict@.cleared_physically == ecu_clear_verdict.cleared_physically,
        ecu_clear_verdict@.after == ecu_clear_verdict.after@,
        ecu_clear_verdict@.verified_clean == ecu_clear_verdict.verified_clean,
        ecu_clear_verdict@.error == ecu_clear_verdict.error,
        faults_view(faults).len() == faults.len(),
        forall|i: int| 0 <= i < faults.len() ==> #[trigger] faults_view(faults)[i] == faults[i]@,
        clear_reports_view(clear_reports).len() == clear_reports.len(),
        forall|i: int|
            0 <= i < clear_reports.len() ==> #[trigger] clear_reports_view(clear_reports)[i]
                == clear_reports[i]@,
        verdicts_view(verdicts).len() == verdicts.len(),
        forall|i: int|
            0 <= i < verdicts.len() ==> #[trigger] verdicts_view(verdicts)[i] == verdicts[i]@,
{
}

} // verus!
