//! What each diagnostic service sends, and what its replies mean.
//!
//! Reads are autonomous-safe. Clearing, resetting and switching are state changes: whether to run
//! them is the caller's to decide, behind an explicit confirmation.
use vstd::prelude::*;
use crate::client::error::{ClientError, Outcome};
use crate::hsfz::Gateway;
use crate::uds::{
    decode_dtc_extended_data, decode_dtc_severity, decode_dtc_snapshot, decode_dtcs,
    decode_info_memory, decode_read_data_by_identifier, read_data_by_identifier,
    read_dtc_by_status_mask, read_dtc_extended_data_by_dtc, read_dtc_severity_by_dtc,
    read_dtc_snapshot_by_dtc, Dtc, DtcRecordRegion, DtcSeverity, InfoMemory,
};

verus! {

// ---------------------------------------------------------------------------
// Settings
// ---------------------------------------------------------------------------

/// The link-local broadcast address discovery probes by default.
pub const DEFAULT_BROADCAST: [u8; 4] = [169, 254, 255, 255];

/// Connection settings shared by the direct and discovery connect paths. Timeouts are in
/// milliseconds.
#[derive(Debug, Clone, Copy, PartialEq, Eq)]
pub struct ClientConfig {
    /// TCP diagnostic port.
    pub port: u16,
    /// Tester (source) logical address.
    pub tester: u8,
    /// TCP connect timeout.
    pub connect_timeout: u64,
    /// How long an ECU has to answer a request at all.
    pub read_timeout: u64,
}

impl Default for ClientConfig {
    /// The conventional port, tester address and timeouts.
    fn default() -> (r: ClientConfig)
        ensures
            r.port == crate::hsfz::DIAG_PORT,
            r.tester == crate::hsfz::TESTER_ADDRESS,
            r.connect_timeout == crate::hsfz::CONNECT_TIMEOUT_DEFAULT_MS,
            r.read_timeout == crate::hsfz::READ_TIMEOUT_DEFAULT_MS,
    {
        ClientConfig {
            port: crate::hsfz::DIAG_PORT,
            tester: crate::hsfz::TESTER_ADDRESS,
            connect_timeout: crate::hsfz::CONNECT_TIMEOUT_DEFAULT_MS,
            read_timeout: crate::hsfz::READ_TIMEOUT_DEFAULT_MS,
        }
    }
}

/// The one gateway to connect to: none and several are errors.
pub fn select_gateway(gateways: Vec<Gateway>, bind_ip: [u8; 4]) -> (r: Result<Gateway, ClientError>)
    ensures
        match r {
            Ok(gateway) => gateways@.len() == 1 && gateway == gateways@[0],
            Err(e) => gateways@.len() != 1 && e == (if gateways@.len() == 0 {
                ClientError::NoGatewayFound { bind_ip }
            } else {
                ClientError::AmbiguousGateway { count: gateways@.len() as usize }
            }),
        },
{
    let count: usize = gateways.len();
    if count == 0 {
        return Err(ClientError::NoGatewayFound { bind_ip });
    }
    if count > 1 {
        return Err(ClientError::AmbiguousGateway { count });
    }
    let mut gateways = gateways;
    Ok(gateways.remove(0))
}

// ---------------------------------------------------------------------------
// One request
// ---------------------------------------------------------------------------

/// A request to one ECU.
#[derive(Debug, Clone, PartialEq, Eq)]
pub struct Request {
    /// The ECU's diagnostic address.
    pub target: u8,
    /// The UDS bytes.
    pub uds: Vec<u8>,
}

/// What a [`Request`] holds.
#[verifier::ext_equal]
pub struct RequestView {
    pub target: u8,
    pub uds: Seq<u8>,
}

impl View for Request {
    type V = RequestView;

    open spec fn view(&self) -> RequestView {
        RequestView { target: self.target, uds: self.uds@ }
    }
}

/// The view of an optional request.
pub open spec fn opt_request_view(r: Option<Request>) -> Option<RequestView> {
    match r {
        Some(request) => Some(request@),
        None => None,
    }
}

/// What a request that an ECU may refuse brought: a refusal means that there is no such record.
pub open spec fn optional_of(o: Result<Seq<u8>, ClientError>) -> Result<
    Option<Seq<u8>>,
    ClientError,
> {
    match o {
        Ok(reply) => Ok(Some(reply)),
        Err(e) => if e is Negative {
            Ok(None)
        } else {
            Err(e)
        },
    }
}

/// The reply, or `None` where the ECU refused; other errors are passed on.
pub fn request_optional(outcome: Outcome) -> (r: Result<Option<Vec<u8>>, ClientError>)
    ensures
        match r {
            Ok(Some(reply)) => outcome == Ok::<Vec<u8>, ClientError>(reply) && optional_of(
                crate::client::error::outcome_view(outcome),
            ) == Ok::<Option<Seq<u8>>, ClientError>(Some(reply@)),
            Ok(None) => optional_of(crate::client::error::outcome_view(outcome)) == Ok::<
                Option<Seq<u8>>,
                ClientError,
            >(None),
            Err(e) => optional_of(crate::client::error::outcome_view(outcome)) == Err::<
                Option<Seq<u8>>,
                ClientError,
            >(e),
        },
{
    match outcome {
        Ok(reply) => Ok(Some(reply)),
        Err(ClientError::Negative { .. }) => Ok(None),
        Err(e) => Err(e),
    }
}

/// The value of identifier `did` in what a read of it brought. The reply must echo the identifier
/// asked for: anything else is a desynced stream.
pub open spec fn did_value_of(did: u16, o: Result<Seq<u8>, ClientError>) -> Result<
    Seq<u8>,
    ClientError,
> {
    match o {
        Ok(reply) => match crate::uds::identified_value(reply) {
            Ok((got, raw)) => if got == did {
                Ok(raw)
            } else {
                Err(ClientError::UnexpectedDid { requested: did, got })
            },
            Err(e) => Err(ClientError::Uds(e)),
        },
        Err(e) => Err(e),
    }
}

/// The value of one data identifier, from what reading it brought.
pub fn read_did(did: u16, outcome: Outcome) -> (r: Result<Vec<u8>, ClientError>)
    ensures
        crate::client::error::outcome_view(r) == did_value_of(
            did,
            crate::client::error::outcome_view(outcome),
        ),
{
    match outcome {
        Ok(reply) => match decode_read_data_by_identifier(reply.as_slice()) {
            Ok((got, raw)) => if got == did {
                Ok(raw)
            } else {
                Err(ClientError::UnexpectedDid { requested: did, got })
            },
            Err(e) => Err(ClientError::Uds(e)),
        },
        Err(e) => Err(e),
    }
}

/// A read of one data identifier never passes off another identifier's value: it succeeds exactly
/// on a reply that echoes the one asked for, with the bytes that follow the echo.
pub proof fn law_a_mismatched_echo_is_rejected(did: u16, got: u16, value: Seq<u8>)
    ensures
        did_value_of(
            did,
            Ok(seq![0x62u8] + crate::bytes::be16_bytes(got) + value),
        ) == (if got == did {
            Ok::<Seq<u8>, ClientError>(value)
        } else {
            Err::<Seq<u8>, ClientError>(ClientError::UnexpectedDid { requested: did, got })
        }),
{
    let reply = seq![0x62u8] + crate::bytes::be16_bytes(got) + value;
    crate::bytes::lemma_be16_round_trip(got);
    assert(reply.skip(3) =~= value);
    assert(reply[0] == 0x62u8);
    assert(reply[1] == crate::bytes::be16_bytes(got)[0]);
    assert(reply[2] == crate::bytes::be16_bytes(got)[1]);
}

// ---------------------------------------------------------------------------
// Fault memory
// ---------------------------------------------------------------------------

/// The trouble codes in what a fault read brought.
pub open spec fn dtcs_of(o: Result<Seq<u8>, ClientError>) -> Result<
    Seq<([u8; 3], u8)>,
    ClientError,
> {
    match o {
        Ok(reply) => match crate::uds::stored_dtcs(reply) {
            Ok(dtcs) => Ok(dtcs),
            Err(e) => Err(ClientError::Uds(e)),
        },
        Err(e) => Err(e),
    }
}

/// The view of a fault read's result.
pub open spec fn dtcs_result(r: Result<Vec<Dtc>, ClientError>) -> Result<
    Seq<([u8; 3], u8)>,
    ClientError,
> {
    match r {
        Ok(dtcs) => Ok(crate::uds::dtcs_view(dtcs@)),
        Err(e) => Err(e),
    }
}

/// The request for an ECU's faults: pending or confirmed. The ECU does the filtering.
pub fn fault_request(target: u8) -> (r: Request)
    ensures
        r@ == (RequestView { target, uds: seq![0x19u8, 0x02u8, 0x0Cu8] }),
{
    let r = Request { target, uds: read_dtc_by_status_mask(crate::uds::ISTA_DTC_STATUS_MASK) };
    assert(r@.uds =~= seq![0x19u8, 0x02u8, 0x0Cu8]);
    r
}

/// The trouble codes, from what a fault read brought.
pub fn read_dtcs(outcome: Outcome) -> (r: Result<Vec<Dtc>, ClientError>)
    ensures
        dtcs_result(r) == dtcs_of(crate::client::error::outcome_view(outcome)),
{
    match outcome {
        Ok(reply) => match decode_dtcs(reply.as_slice()) {
            Ok(dtcs) => Ok(dtcs),
            Err(e) => Err(ClientError::Uds(e)),
        },
        Err(e) => Err(e),
    }
}

/// The info memory in what an info read brought; `None` where the ECU keeps none.
pub open spec fn info_of(o: Result<Seq<u8>, ClientError>) -> Result<
    Option<crate::uds::InfoMemoryView>,
    ClientError,
> {
    match optional_of(o) {
        Ok(Some(reply)) => match crate::uds::info_memory_in(reply) {
            Ok(memory) => Ok(Some(memory)),
            Err(e) => Err(ClientError::Uds(e)),
        },
        Ok(None) => Ok(None),
        Err(e) => Err(e),
    }
}

/// The view of an info read's result.
pub open spec fn info_result(r: Result<Option<InfoMemory>, ClientError>) -> Result<
    Option<crate::uds::InfoMemoryView>,
    ClientError,
> {
    match r {
        Ok(Some(memory)) => Ok(Some(memory@)),
        Ok(None) => Ok(None),
        Err(e) => Err(e),
    }
}

/// The request for an ECU's info memory: `22 20 00`.
pub fn info_request(target: u8) -> (r: Request)
    ensures
        r@ == (RequestView { target, uds: seq![0x22u8, 0x20u8, 0x00u8] }),
{
    let r = Request { target, uds: read_data_by_identifier(crate::uds::DID_INFO_MEMORY) };
    assert(r@.uds =~= seq![0x22u8, 0x20u8, 0x00u8]);
    r
}

/// The info memory, from what an info read brought.
pub fn read_info_memory(outcome: Outcome) -> (r: Result<Option<InfoMemory>, ClientError>)
    ensures
        info_result(r) == info_of(crate::client::error::outcome_view(outcome)),
{
    match request_optional(outcome) {
        Ok(Some(reply)) => match decode_info_memory(reply.as_slice()) {
            Ok(memory) => Ok(Some(memory)),
            Err(e) => Err(ClientError::Uds(e)),
        },
        Ok(None) => Ok(None),
        Err(e) => Err(e),
    }
}

/// One ECU's fault memory and info memory, read together.
#[derive(Debug, Clone, PartialEq, Eq)]
pub struct EcuFaultBundle {
    /// The fault-memory trouble codes.
    pub faults: Vec<Dtc>,
    /// The info-memory entries; empty when unsupported.
    pub info: Vec<Dtc>,
    /// Whether the ECU keeps an info memory at all.
    pub info_supported: bool,
}

/// The bundle of an ECU's faults with what the info read brought. The info read is optional: an
/// ECU that refuses it, or leaves it unanswered, has no info memory to show, and its faults stay.
pub fn read_ecu_faults(faults: Vec<Dtc>, info_outcome: Outcome) -> (r: EcuFaultBundle)
    ensures
        r.faults == faults,
        match info_of(crate::client::error::outcome_view(info_outcome)) {
            Ok(Some(memory)) => r.info_supported && crate::uds::dtcs_view(r.info@)
                == memory.entries,
            _ => !r.info_supported && r.info@.len() == 0,
        },
{
    match read_info_memory(info_outcome) {
        Ok(Some(memory)) => EcuFaultBundle { faults, info: memory.entries, info_supported: true },
        _ => EcuFaultBundle { faults, info: Vec::new(), info_supported: false },
    }
}

// ---------------------------------------------------------------------------
// Freeze-frame detail
// ---------------------------------------------------------------------------

/// The raw freeze-frame reads for one fault. A part is `None` when the ECU has no such record.
#[derive(Debug, Clone, PartialEq, Eq)]
pub struct FaultDetailRaw {
    /// The snapshot record region, if the fault has one.
    pub snapshot: Option<DtcRecordRegion>,
    /// The extended-data record region, if the fault has one.
    pub extended: Option<DtcRecordRegion>,
    /// The severity information, if the ECU reports it.
    pub severity: Option<DtcSeverity>,
}

/// What a record region holds.
pub open spec fn region_view(g: DtcRecordRegion) -> ([u8; 3], u8, Seq<u8>) {
    (g.dtc, g.status, g.body@)
}

/// What an optional record region holds.
pub open spec fn opt_region_view(g: Option<DtcRecordRegion>) -> Option<([u8; 3], u8, Seq<u8>)> {
    match g {
        Some(g) => Some(region_view(g)),
        None => None,
    }
}

/// What an optional severity holds.
pub open spec fn opt_severity_view(s: Option<DtcSeverity>) -> Option<(u8, u8, [u8; 3], u8)> {
    match s {
        Some(s) => Some((s.severity, s.functional_unit, s.dtc, s.status)),
        None => None,
    }
}

/// The state of a freeze-frame read: which part is next, what came, and what went wrong.
#[verifier::ext_equal]
pub struct FaultDetailView {
    pub target: u8,
    pub dtc: [u8; 3],
    /// The part to read next: severity, extended data, snapshot.
    pub part: nat,
    pub severity: Option<(u8, u8, [u8; 3], u8)>,
    pub extended: Option<([u8; 3], u8, Seq<u8>)>,
    pub snapshot: Option<([u8; 3], u8, Seq<u8>)>,
    pub failure: Option<ClientError>,
}

/// The freeze-frame read of one fault: severity (`19 09`), extended data (`19 06`), snapshot
/// (`19 04`), in that order.
#[derive(Debug)]
pub struct FaultDetail {
    target: u8,
    dtc: [u8; 3],
    part: u8,
    severity: Option<DtcSeverity>,
    extended: Option<DtcRecordRegion>,
    snapshot: Option<DtcRecordRegion>,
    failure: Option<ClientError>,
}

impl View for FaultDetail {
    type V = FaultDetailView;

    closed spec fn view(&self) -> FaultDetailView {
        FaultDetailView {
            target: self.target,
            dtc: self.dtc,
            part: self.part as nat,
            severity: opt_severity_view(self.severity),
            extended: opt_region_view(self.extended),
            snapshot: opt_region_view(self.snapshot),
            failure: self.failure,
        }
    }
}

/// The freeze-frame read before its first request. The severity read is skipped only where the
/// ECU is known not to support it; where that is unknown it is sent.
pub open spec fn detail_start(
    target: u8,
    dtc: [u8; 3],
    severity_supported: Option<bool>,
) -> FaultDetailView {
    FaultDetailView {
        target,
        dtc,
        part: if severity_supported == Some(false) {
            1
        } else {
            0
        },
        severity: None,
        extended: None,
        snapshot: None,
        failure: None,
    }
}

/// The next request of a freeze-frame read.
pub open spec fn detail_request(v: FaultDetailView) -> Option<RequestView> {
    let d = v.dtc@;
    if v.failure is Some || v.part >= 3 {
        None
    } else if v.part == 0 {
        Some(RequestView { target: v.target, uds: seq![0x19u8, 0x09u8, d[0], d[1], d[2]] })
    } else if v.part == 1 {
        Some(RequestView { target: v.target, uds: seq![0x19u8, 0x06u8, d[0], d[1], d[2], 0xFFu8] })
    } else {
        Some(RequestView { target: v.target, uds: seq![0x19u8, 0x04u8, d[0], d[1], d[2], 0xFFu8] })
    }
}

/// The freeze-frame read after one reply. A refusal means that there is no such record; any other
/// error, and a reply that cannot be decoded, ends the read.
pub open spec fn detail_recorded(
    v: FaultDetailView,
    o: Result<Seq<u8>, ClientError>,
) -> FaultDetailView {
    let next = FaultDetailView { part: v.part + 1, ..v };
    match optional_of(o) {
        Ok(None) => next,
        Ok(Some(reply)) => if v.part == 0 {
            match crate::uds::severity_in(reply) {
                Ok(s) => FaultDetailView { severity: Some(s), ..next },
                Err(e) => FaultDetailView { failure: Some(ClientError::Uds(e)), ..v },
            }
        } else if v.part == 1 {
            match crate::uds::record_region(reply, 0x06) {
                Ok(g) => FaultDetailView { extended: Some(g), ..next },
                Err(e) => FaultDetailView { failure: Some(ClientError::Uds(e)), ..v },
            }
        } else {
            match crate::uds::record_region(reply, 0x04) {
                Ok(g) => FaultDetailView { snapshot: Some(g), ..next },
                Err(e) => FaultDetailView { failure: Some(ClientError::Uds(e)), ..v },
            }
        },
        Err(e) => FaultDetailView { failure: Some(e), ..v },
    }
}

/// A refused part is no error: it leaves its field empty and the read goes on with the next part.
pub proof fn law_a_refused_part_is_skipped(v: FaultDetailView, sid: u8, nrc: u8)
    ensures
        ({
            let next = detail_recorded(v, Err(ClientError::Negative { sid, nrc }));
            &&& next.failure == v.failure
            &&& next.part == v.part + 1
            &&& next.severity == v.severity && next.extended == v.extended && next.snapshot
                == v.snapshot
        }),
{
}

/// Where severity is known to be unsupported, the first request is already the extended data.
pub proof fn law_an_unsupported_severity_is_never_asked(target: u8, dtc: [u8; 3])
    ensures
        detail_request(detail_start(target, dtc, Some(false))) matches Some(r) && r.uds.len() > 1
            && r.uds[1] == 0x06u8,
        detail_request(detail_start(target, dtc, None)) matches Some(r) && r.uds.len() > 1
            && r.uds[1] == 0x09u8,
        detail_request(detail_start(target, dtc, Some(true))) == detail_request(
            detail_start(target, dtc, None),
        ),
{
}

impl FaultDetail {
    /// Start the freeze-frame read of one fault.
    pub fn start(target: u8, dtc: [u8; 3], severity_supported: Option<bool>) -> (r: FaultDetail)
        ensures
            r@ == detail_start(target, dtc, severity_supported),
    {
        let part: u8 = match severity_supported {
            Some(supported) => if supported {
                0
            } else {
                1
            },
            None => 0,
        };
        FaultDetail {
            target,
            dtc,
            part,
            severity: None,
            extended: None,
            snapshot: None,
            failure: None,
        }
    }

    /// The next request, if one is left.
    pub fn next(&self) -> (r: Option<Request>)
        ensures
            opt_request_view(r) == detail_request(self@),
    {
        if self.failure.is_some() || self.part >= 3 {
            return None;
        }
        let uds = if self.part == 0 {
            read_dtc_severity_by_dtc(self.dtc)
        } else if self.part == 1 {
            read_dtc_extended_data_by_dtc(self.dtc, crate::uds::ALL_DTC_RECORDS)
        } else {
            read_dtc_snapshot_by_dtc(self.dtc, crate::uds::ALL_DTC_RECORDS)
        };
        let request = Request { target: self.target, uds };
        proof {
            let expected = detail_request(self@)->0;
            assert(request@.uds =~= expected.uds);
        }
        Some(request)
    }

    /// Take what the request brought.
    pub fn record(&mut self, outcome: Outcome)
        requires
            detail_request(old(self)@) is Some,
        ensures
            final(self)@ == detail_recorded(
                old(self)@,
                crate::client::error::outcome_view(outcome),
            ),
    {
        let reply = match request_optional(outcome) {
            Ok(Some(reply)) => reply,
            Ok(None) => {
                self.part = self.part + 1;
                return;
            },
            Err(e) => {
                self.failure = Some(e);
                return;
            },
        };
        if self.part == 0 {
            match decode_dtc_severity(reply.as_slice()) {
                Ok(s) => {
                    self.severity = Some(s);
                },
                Err(e) => {
                    self.failure = Some(ClientError::Uds(e));
                    return;
                },
            }
        } else if self.part == 1 {
            match decode_dtc_extended_data(reply.as_slice()) {
                Ok(g) => {
                    self.extended = Some(g);
                },
                Err(e) => {
                    self.failure = Some(ClientError::Uds(e));
                    return;
                },
            }
        } else {
            match decode_dtc_snapshot(reply.as_slice()) {
                Ok(g) => {
                    self.snapshot = Some(g);
                },
                Err(e) => {
                    self.failure = Some(ClientError::Uds(e));
                    return;
                },
            }
        }
        self.part = self.part + 1;
    }

    /// What was read, or what ended the read.
    pub fn finish(self) -> (r: Result<FaultDetailRaw, ClientError>)
        ensures
            match r {
                Ok(detail) => self@.failure is None && opt_severity_view(detail.severity)
                    == self@.severity && opt_region_view(detail.extended) == self@.extended
                    && opt_region_view(detail.snapshot) == self@.snapshot,
                Err(e) => self@.failure == Some(e),
            },
    {
        match self.failure {
            Some(e) => Err(e),
            None => Ok(
                FaultDetailRaw {
                    snapshot: self.snapshot,
                    extended: self.extended,
                    severity: self.severity,
                },
            ),
        }
    }
}

/// Only a refusal means that there is no such record: a reply is passed on as it is, and so is
/// every other error.
pub proof fn law_only_a_refusal_means_no_record(o: Result<Seq<u8>, ClientError>)
    ensures
        optional_of(o) == Ok::<Option<Seq<u8>>, ClientError>(None) <==> (o matches Err(e) && e
            is Negative),
        o matches Ok(reply) ==> optional_of(o) == Ok::<Option<Seq<u8>>, ClientError>(Some(reply)),
        o matches Err(e) ==> !(e is Negative) ==> optional_of(o) == Err::<
            Option<Seq<u8>>,
            ClientError,
        >(e),
{
}

/// A read of one identifier passes a transport error on as it is.
pub proof fn law_a_failed_read_keeps_its_error(did: u16, e: ClientError)
    ensures
        did_value_of(did, Err(e)) == Err::<Seq<u8>, ClientError>(e),
        dtcs_of(Err(e)) == Err::<Seq<([u8; 3], u8)>, ClientError>(e),
{
}

/// A fault read succeeds exactly on a fault reply, with the faults in it; an undecodable reply is
/// an error of its own.
pub proof fn law_a_fault_read_is_what_the_reply_says(reply: Seq<u8>)
    ensures
        dtcs_of(Ok(reply)) is Ok <==> crate::uds::stored_dtcs(reply) is Ok,
        crate::uds::stored_dtcs(reply) matches Ok(faults) ==> dtcs_of(Ok(reply)) == Ok::<
            Seq<([u8; 3], u8)>,
            ClientError,
        >(faults),
        crate::uds::stored_dtcs(reply) matches Err(e) ==> dtcs_of(Ok(reply)) == Err::<
            Seq<([u8; 3], u8)>,
            ClientError,
        >(ClientError::Uds(e)),
{
}

/// An info read gives the entries behind the echo; an ECU that refuses it keeps no info memory.
pub proof fn law_an_info_read_is_what_the_reply_says(
    payload: Seq<u8>,
    sid: u8,
    nrc: u8,
    e: ClientError,
)
    requires
        payload.len() % 4 == 0,
    ensures
        info_of(Ok(seq![0x62u8, 0x20u8, 0x00u8] + payload)) matches Ok(Some(memory)) && memory.raw
            == payload && memory.entries.len() == payload.len() / 4,
        info_of(Err(ClientError::Negative { sid, nrc })) == Ok::<
            Option<crate::uds::InfoMemoryView>,
            ClientError,
        >(None),
        !(e is Negative) ==> info_of(Err(e)) == Err::<
            Option<crate::uds::InfoMemoryView>,
            ClientError,
        >(e),
{
    let reply = seq![0x62u8, 0x20u8, 0x00u8] + payload;
    assert(reply.skip(3) =~= payload);
    if payload.len() > 0 {
        crate::uds::law_every_info_entry_of_a_reply_is_read(reply, 0);
    }
}

/// The read of one fault's details, from beginning to end: the severity unless the ECU is known
/// to have none, the extended data and the snapshot are asked for, of that fault and of that ECU,
/// and each reply ends up in its own place. A part that is refused stays empty.
pub proof fn law_a_fault_detail_reads_its_three_parts(
    target: u8,
    dtc: [u8; 3],
    supported: Option<bool>,
    severity: Option<Seq<u8>>,
    extended: Option<Seq<u8>>,
    snapshot: Option<Seq<u8>>,
    sid: u8,
    nrc: u8,
)
    requires
        severity matches Some(reply) ==> reply.len() == 9 && reply[0] == 0x59 && reply[1] == 0x09,
        extended matches Some(reply) ==> reply.len() >= 6 && reply[0] == 0x59 && reply[1] == 0x06,
        snapshot matches Some(reply) ==> reply.len() >= 6 && reply[0] == 0x59 && reply[1] == 0x04,
    ensures
        ({
            let d = dtc@;
            let outcome = |part: Option<Seq<u8>>|
                match part {
                    Some(reply) => Ok::<Seq<u8>, ClientError>(reply),
                    None => Err::<Seq<u8>, ClientError>(ClientError::Negative { sid, nrc }),
                };
            let start = detail_start(target, dtc, supported);
            let first = if supported == Some(false) {
                start
            } else {
                detail_recorded(start, outcome(severity))
            };
            let second = detail_recorded(first, outcome(extended));
            let third = detail_recorded(second, outcome(snapshot));
            &&& supported != Some(false) ==> detail_request(start) == Some(
                RequestView { target, uds: seq![0x19u8, 0x09u8, d[0], d[1], d[2]] },
            )
            &&& detail_request(first) == Some(
                RequestView { target, uds: seq![0x19u8, 0x06u8, d[0], d[1], d[2], 0xFFu8] },
            )
            &&& detail_request(second) == Some(
                RequestView { target, uds: seq![0x19u8, 0x04u8, d[0], d[1], d[2], 0xFFu8] },
            )
            &&& detail_request(third) is None
            &&& third.failure is None
            &&& (third.severity is Some <==> supported != Some(false) && severity is Some)
            &&& (supported != Some(false) ==> (severity matches Some(reply) ==> third.severity
                matches Some(s) && s.0 == reply[3] && s.1 == reply[4] && s.2@ == reply.subrange(
                5,
                8,
            ) && s.3 == reply[8]))
            &&& (third.extended is Some <==> extended is Some)
            &&& (extended matches Some(reply) ==> third.extended matches Some(g) && g.0@
                == reply.subrange(2, 5) && g.1 == reply[5] && g.2 == reply.skip(6))
            &&& (third.snapshot is Some <==> snapshot is Some)
            &&& (snapshot matches Some(reply) ==> third.snapshot matches Some(g) && g.0@
                == reply.subrange(2, 5) && g.1 == reply[5] && g.2 == reply.skip(6))
        }),
{
    if let Some(reply) = severity {
        crate::uds::law_a_severity_reads_back(reply);
    }
    if let Some(reply) = extended {
        crate::uds::law_a_record_region_reads_back(reply, 0x06);
    }
    if let Some(reply) = snapshot {
        crate::uds::law_a_record_region_reads_back(reply, 0x04);
    }
}

/// A part that fails in any other way than by a refusal ends the read with its error, and so does
/// a part that cannot be decoded.
pub proof fn law_a_failed_part_ends_the_detail(v: FaultDetailView, e: ClientError, reply: Seq<u8>)
    requires
        detail_request(v) is Some,
        !(e is Negative),
        reply.len() < 6,
    ensures
        detail_recorded(v, Err(e)).failure == Some(e),
        detail_request(detail_recorded(v, Err(e))) is None,
        detail_recorded(v, Ok(reply)).failure == Some(
            ClientError::Uds(crate::uds::UdsError::BadLength { got: reply.len() as usize }),
        ),
        detail_request(detail_recorded(v, Ok(reply))) is None,
{
}

/// The model of a value says of each field what the field holds.
pub proof fn law_a_model_shows_what_its_value_holds(request: Request)
    ensures
        request@.target == request.target,
        request@.uds == request.uds@,
{
}

} // verus!
