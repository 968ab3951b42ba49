//! UDS (ISO 14229) requests and replies: the byte strings that the procedures exchange.
use vstd::prelude::*;
use crate::bytes::{copy_range, push_be16, push_bytes, read_be16};

verus! {

/// DiagnosticSessionControl.
pub const SID_SESSION_CONTROL: u8 = 0x10;

/// ECUReset.
pub const SID_ECU_RESET: u8 = 0x11;

/// ClearDiagnosticInformation.
pub const SID_CLEAR_DTC: u8 = 0x14;

/// ReadDTCInformation.
pub const SID_READ_DTC: u8 = 0x19;

/// ReadDataByIdentifier.
pub const SID_READ_DATA: u8 = 0x22;

/// DynamicallyDefineDataIdentifier.
pub const SID_DYNAMIC_DATA: u8 = 0x2C;

/// WriteDataByIdentifier.
pub const SID_WRITE_DATA: u8 = 0x2E;

/// RoutineControl.
pub const SID_ROUTINE_CONTROL: u8 = 0x31;

/// TesterPresent.
pub const SID_TESTER_PRESENT: u8 = 0x3E;

/// The first byte of a negative response: `7F <sid> <nrc>`.
pub const SID_NEGATIVE_RESPONSE: u8 = 0x7F;

/// NRC "request received, response pending": the ECU is still working.
pub const NRC_RESPONSE_PENDING: u8 = 0x78;

/// How long an ECU may take once it has answered that it is still working, in milliseconds.
pub const P2_STAR_SERVER_MAX_DEFAULT_MS: u64 = 5000;

/// The extended diagnostic session.
pub const SESSION_EXTENDED: u8 = 0x03;

/// The functional (broadcast) address that every ECU answers.
pub const FUNCTIONAL_ADDRESS_F01: u8 = 0xDF;

/// The DTC group that stands for every DTC.
pub const CLEAR_ALL_DTCS: [u8; 3] = [0xFF, 0xFF, 0xFF];

/// The status mask of a fault read: pending or confirmed.
pub const ISTA_DTC_STATUS_MASK: u8 = 0x0C;

/// The record number that asks for every record of a DTC.
pub const ALL_DTC_RECORDS: u8 = 0xFF;

/// DID of the VIN.
pub const DID_VIN: u16 = 0xF190;

/// DID of the info memory (Infospeicher).
pub const DID_INFO_MEMORY: u16 = 0x2000;

/// DID of the gateway's installed-ECU list.
pub const DID_ECU_LIST_ALL: u16 = 0x3F07;

/// DID of the gateway's actively responding ECUs.
pub const DID_ECU_LIST_ACTIVE: u16 = 0x3F08;

/// DID of the vehicle order (FA).
pub const DID_VEHICLE_ORDER: u16 = 0x3F06;

/// DID of the integration levels (I-Stufe).
pub const DID_I_STUFE: u16 = 0x100B;

/// RoutineControl sub-function that starts a routine.
pub const START_ROUTINE: u8 = 0x01;

/// The ECU that switches terminal 15.
pub const CLAMP_TARGET: u8 = 0x40;

/// The telegram that switches terminal 15 off; its last byte is a checksum.
pub const KL15_OFF: [u8; 7] = [0x31, 0x01, 0x10, 0x01, 0x06, 0x06, 0xA8];

/// The telegram that switches terminal 15 on; its last byte is a checksum.
pub const KL15_ON: [u8; 7] = [0x31, 0x01, 0x10, 0x01, 0x0A, 0x0A, 0x43];

/// How long terminal 15 stays off, in milliseconds.
pub const CLAMP_OFF_DURATION_MS: u64 = 15000;

/// One stored trouble code and its status byte.
#[derive(Debug, Clone, Copy, PartialEq, Eq)]
pub struct Dtc {
    pub code: [u8; 3],
    pub status: u8,
}

/// The info memory of an ECU, with the payload that it was read from.
#[derive(Debug, Clone, PartialEq, Eq)]
pub struct InfoMemory {
    /// The entries; each one's location code reads as a trouble code does.
    pub entries: Vec<Dtc>,
    /// The payload behind the identifier echo, exactly as the ECU returned it.
    pub raw: Vec<u8>,
}

/// What an [`InfoMemory`] holds.
#[verifier::ext_equal]
pub struct InfoMemoryView {
    pub entries: Seq<([u8; 3], u8)>,
    pub raw: Seq<u8>,
}

impl View for InfoMemory {
    type V = InfoMemoryView;

    open spec fn view(&self) -> InfoMemoryView {
        InfoMemoryView { entries: dtcs_view(self.entries@), raw: self.raw@ }
    }
}

/// The installed-ECU list of the gateway.
#[derive(Debug, Clone, PartialEq, Eq)]
pub struct EcuList {
    pub count: u16,
    pub addresses: Vec<u8>,
}

/// The records that an ECU returned for one trouble code, behind its code and status.
#[derive(Debug, Clone, PartialEq, Eq)]
pub struct DtcRecordRegion {
    pub dtc: [u8; 3],
    pub status: u8,
    pub body: Vec<u8>,
}

/// The severity information of one trouble code.
#[derive(Debug, Clone, Copy, PartialEq, Eq)]
pub struct DtcSeverity {
    pub severity: u8,
    pub functional_unit: u8,
    pub dtc: [u8; 3],
    pub status: u8,
}

/// A reply that does not have the expected form.
#[derive(Debug, Clone, Copy, PartialEq, Eq)]
pub enum UdsError {
    /// The reply answers something else.
    UnexpectedReply,
    /// The reply has the wrong length.
    BadLength { got: usize },
}

// ---------------------------------------------------------------------------
// Requests
// ---------------------------------------------------------------------------

/// The service byte of a positive response to `sid`.
pub open spec fn positive_sid(sid: u8) -> u8 {
    ((sid + 0x40) % 0x100) as u8
}

/// The service byte of a request; zero for an empty one.
pub open spec fn request_sid(uds: Seq<u8>) -> u8 {
    if uds.len() > 0 {
        uds[0]
    } else {
        0
    }
}

/// `22 <did>`.
pub open spec fn read_request(did: u16) -> Seq<u8> {
    seq![SID_READ_DATA] + crate::bytes::be16_bytes(did)
}

/// `14 <dtc>`.
pub open spec fn clear_request(dtc: [u8; 3]) -> Seq<u8> {
    seq![SID_CLEAR_DTC, dtc@[0], dtc@[1], dtc@[2]]
}

/// Whether a service can absorb being sent twice: the two reads and the presence ping. Every other
/// service changes something, and a silence on it is ambiguous.
pub open spec fn retry_safe(sid: u8) -> bool {
    sid == SID_READ_DTC || sid == SID_READ_DATA || sid == SID_TESTER_PRESENT
}

/// Whether a service can absorb being sent twice.
pub fn is_retry_safe(sid: u8) -> (r: bool)
    ensures
        r == retry_safe(sid),
{
    sid == SID_READ_DTC || sid == SID_READ_DATA || sid == SID_TESTER_PRESENT
}

/// The service byte of a positive response to `sid`.
pub fn positive_response_sid(sid: u8) -> (r: u8)
    ensures
        r == positive_sid(sid),
{
    ((sid as u16 + 0x40) % 0x100) as u8
}

/// The service byte of a request; zero for an empty one.
pub fn sid_of(uds: &[u8]) -> (r: u8)
    ensures
        r == request_sid(uds@),
{
    if uds.len() > 0 {
        uds[0]
    } else {
        0
    }
}

/// ReadDataByIdentifier: `22 <did>`.
pub fn read_data_by_identifier(did: u16) -> (r: Vec<u8>)
    ensures
        r@ == read_request(did),
{
    let mut out: Vec<u8> = Vec::new();
    out.push(SID_READ_DATA);
    push_be16(&mut out, did);
    assert(out@ =~= read_request(did));
    out
}

/// WriteDataByIdentifier: `2E <did> <data>`.
pub fn write_data_by_identifier(did: u16, data: &[u8]) -> (r: Vec<u8>)
    ensures
        r@ == seq![SID_WRITE_DATA] + crate::bytes::be16_bytes(did) + data@,
{
    let mut out: Vec<u8> = Vec::new();
    out.push(SID_WRITE_DATA);
    push_be16(&mut out, did);
    push_bytes(&mut out, data);
    assert(out@ =~= seq![SID_WRITE_DATA] + crate::bytes::be16_bytes(did) + data@);
    out
}

/// Clear a dynamically defined data identifier: `2C 03 <did>`.
pub fn clear_dynamic_data_identifier(did: u16) -> (r: Vec<u8>)
    ensures
        r@ == seq![SID_DYNAMIC_DATA, 0x03u8] + crate::bytes::be16_bytes(did),
{
    let mut out: Vec<u8> = Vec::new();
    out.push(SID_DYNAMIC_DATA);
    out.push(0x03);
    push_be16(&mut out, did);
    assert(out@ =~= seq![SID_DYNAMIC_DATA, 0x03u8] + crate::bytes::be16_bytes(did));
    out
}

/// Define a data identifier from a source identifier: `2C 01 <did> <source> <position> <size>`.
pub fn define_dynamic_data_by_identifier(did: u16, source: u16, position: u8, size: u8) -> (r: Vec<
    u8,
>)
    ensures
        r@ == seq![SID_DYNAMIC_DATA, 0x01u8] + crate::bytes::be16_bytes(did)
            + crate::bytes::be16_bytes(source) + seq![position, size],
{
    let mut out: Vec<u8> = Vec::new();
    out.push(SID_DYNAMIC_DATA);
    out.push(0x01);
    push_be16(&mut out, did);
    push_be16(&mut out, source);
    out.push(position);
    out.push(size);
    assert(out@ =~= seq![SID_DYNAMIC_DATA, 0x01u8] + crate::bytes::be16_bytes(did)
        + crate::bytes::be16_bytes(source) + seq![position, size]);
    out
}

/// Read the trouble codes whose status matches `mask`: `19 02 <mask>`.
pub fn read_dtc_by_status_mask(mask: u8) -> (r: Vec<u8>)
    ensures
        r@ == seq![SID_READ_DTC, 0x02u8, mask],
{
    let out: Vec<u8> = vec![SID_READ_DTC, 0x02, mask];
    assert(out@ =~= seq![SID_READ_DTC, 0x02u8, mask]);
    out
}

/// Read the snapshot records of `dtc`: `19 04 <dtc> <record>`.
pub fn read_dtc_snapshot_by_dtc(dtc: [u8; 3], record: u8) -> (r: Vec<u8>)
    ensures
        r@ == seq![SID_READ_DTC, 0x04u8, dtc@[0], dtc@[1], dtc@[2], record],
{
    let out: Vec<u8> = vec![SID_READ_DTC, 0x04, dtc[0], dtc[1], dtc[2], record];
    assert(out@ =~= seq![SID_READ_DTC, 0x04u8, dtc@[0], dtc@[1], dtc@[2], record]);
    out
}

/// Read the extended-data records of `dtc`: `19 06 <dtc> <record>`.
pub fn read_dtc_extended_data_by_dtc(dtc: [u8; 3], record: u8) -> (r: Vec<u8>)
    ensures
        r@ == seq![SID_READ_DTC, 0x06u8, dtc@[0], dtc@[1], dtc@[2], record],
{
    let out: Vec<u8> = vec![SID_READ_DTC, 0x06, dtc[0], dtc[1], dtc[2], record];
    assert(out@ =~= seq![SID_READ_DTC, 0x06u8, dtc@[0], dtc@[1], dtc@[2], record]);
    out
}

/// Read the severity of `dtc`: `19 09 <dtc>`.
pub fn read_dtc_severity_by_dtc(dtc: [u8; 3]) -> (r: Vec<u8>)
    ensures
        r@ == seq![SID_READ_DTC, 0x09u8, dtc@[0], dtc@[1], dtc@[2]],
{
    let out: Vec<u8> = vec![SID_READ_DTC, 0x09, dtc[0], dtc[1], dtc[2]];
    assert(out@ =~= seq![SID_READ_DTC, 0x09u8, dtc@[0], dtc@[1], dtc@[2]]);
    out
}

/// Clear a DTC group: `14 <dtc>`.
pub fn clear_diagnostic_information(dtc: [u8; 3]) -> (r: Vec<u8>)
    ensures
        r@ == clear_request(dtc),
{
    let out: Vec<u8> = vec![SID_CLEAR_DTC, dtc[0], dtc[1], dtc[2]];
    assert(out@ =~= clear_request(dtc));
    out
}

/// RoutineControl: `31 <sub-function> <routine> <data>`.
pub fn routine_control(subfn: u8, routine: u16, data: &[u8]) -> (r: Vec<u8>)
    ensures
        r@ == seq![SID_ROUTINE_CONTROL, subfn] + crate::bytes::be16_bytes(routine) + data@,
{
    let mut out: Vec<u8> = Vec::new();
    out.push(SID_ROUTINE_CONTROL);
    out.push(subfn);
    push_be16(&mut out, routine);
    push_bytes(&mut out, data);
    assert(out@ =~= seq![SID_ROUTINE_CONTROL, subfn] + crate::bytes::be16_bytes(routine) + data@);
    out
}

/// DiagnosticSessionControl: `10 <session>`.
pub fn diagnostic_session_control(session: u8) -> (r: Vec<u8>)
    ensures
        r@ == seq![SID_SESSION_CONTROL, session],
{
    let out: Vec<u8> = vec![SID_SESSION_CONTROL, session];
    assert(out@ =~= seq![SID_SESSION_CONTROL, session]);
    out
}

/// TesterPresent that asks for a response: `3E 00`.
pub fn tester_present() -> (r: Vec<u8>)
    ensures
        r@ == seq![SID_TESTER_PRESENT, 0x00u8],
{
    let out: Vec<u8> = vec![SID_TESTER_PRESENT, 0x00];
    assert(out@ =~= seq![SID_TESTER_PRESENT, 0x00u8]);
    out
}

/// TesterPresent with the response suppressed: `3E 80`, the keepalive.
pub fn tester_present_suppressed() -> (r: Vec<u8>)
    ensures
        r@ == seq![SID_TESTER_PRESENT, 0x80u8],
{
    let out: Vec<u8> = vec![SID_TESTER_PRESENT, 0x80];
    assert(out@ =~= seq![SID_TESTER_PRESENT, 0x80u8]);
    out
}

// ---------------------------------------------------------------------------
// Replies
// ---------------------------------------------------------------------------

/// The identifier and the value in a `62 <did> <value>` reply.
pub open spec fn identified_value(reply: Seq<u8>) -> Result<(u16, Seq<u8>), UdsError> {
    if reply.len() < 3 {
        Err(UdsError::BadLength { got: reply.len() as usize })
    } else if reply[0] != positive_sid(SID_READ_DATA) {
        Err(UdsError::UnexpectedReply)
    } else {
        Ok((crate::bytes::be16(reply[1], reply[2]) as u16, reply.skip(3)))
    }
}

/// The trouble codes in a run of four-byte records.
pub open spec fn records_in(bytes: Seq<u8>) -> Seq<([u8; 3], u8)>
    decreases bytes.len(),
{
    if bytes.len() < 4 {
        Seq::<([u8; 3], u8)>::empty()
    } else {
        seq![([bytes[0], bytes[1], bytes[2]], bytes[3])] + records_in(bytes.skip(4))
    }
}

/// The code and status of each trouble code.
pub open spec fn dtcs_view(dtcs: Seq<Dtc>) -> Seq<([u8; 3], u8)> {
    Seq::new(dtcs.len(), |i: int| (dtcs[i].code, dtcs[i].status))
}

/// The trouble codes in a `59 02 <mask> <records>` reply.
pub open spec fn stored_dtcs(reply: Seq<u8>) -> Result<Seq<([u8; 3], u8)>, UdsError> {
    if reply.len() < 3 || (reply.len() - 3) % 4 != 0 {
        Err(UdsError::BadLength { got: reply.len() as usize })
    } else if reply[0] != positive_sid(SID_READ_DTC) || reply[1] != 0x02 {
        Err(UdsError::UnexpectedReply)
    } else {
        Ok(records_in(reply.skip(3)))
    }
}

/// The info memory in a `62 20 00 <records>` reply.
pub open spec fn info_memory_in(reply: Seq<u8>) -> Result<InfoMemoryView, UdsError> {
    if reply.len() < 3 || (reply.len() - 3) % 4 != 0 {
        Err(UdsError::BadLength { got: reply.len() as usize })
    } else if reply[0] != positive_sid(SID_READ_DATA) || crate::bytes::be16(reply[1], reply[2])
        != DID_INFO_MEMORY {
        Err(UdsError::UnexpectedReply)
    } else {
        Ok(InfoMemoryView { entries: records_in(reply.skip(3)), raw: reply.skip(3) })
    }
}

/// The count and addresses in an ECU-list value: a two-byte count, then one byte per ECU.
pub open spec fn listed_ecus(value: Seq<u8>) -> Result<(u16, Seq<u8>), UdsError> {
    if value.len() < 2 || value.len() < 2 + crate::bytes::be16(value[0], value[1]) {
        Err(UdsError::BadLength { got: value.len() as usize })
    } else {
        let count = crate::bytes::be16(value[0], value[1]);
        Ok((count as u16, value.subrange(2, 2 + count)))
    }
}

/// The record region in a `59 <sub-function> <dtc> <status> <records>` reply.
pub open spec fn record_region(reply: Seq<u8>, subfn: u8) -> Result<
    ([u8; 3], u8, Seq<u8>),
    UdsError,
> {
    if reply.len() < 6 {
        Err(UdsError::BadLength { got: reply.len() as usize })
    } else if reply[0] != positive_sid(SID_READ_DTC) || reply[1] != subfn {
        Err(UdsError::UnexpectedReply)
    } else {
        Ok(([reply[2], reply[3], reply[4]], reply[5], reply.skip(6)))
    }
}

/// The severity in a `59 09 <mask> <severity> <unit> <dtc> <status>` reply.
pub open spec fn severity_in(reply: Seq<u8>) -> Result<(u8, u8, [u8; 3], u8), UdsError> {
    if reply.len() != 9 {
        Err(UdsError::BadLength { got: reply.len() as usize })
    } else if reply[0] != positive_sid(SID_READ_DTC) || reply[1] != 0x09 {
        Err(UdsError::UnexpectedReply)
    } else {
        Ok((reply[3], reply[4], [reply[5], reply[6], reply[7]], reply[8]))
    }
}

/// The identifier and value of a ReadDataByIdentifier reply.
pub fn decode_read_data_by_identifier(reply: &[u8]) -> (r: Result<(u16, Vec<u8>), UdsError>)
    ensures
        match r {
            Ok(v) => identified_value(reply@) == Ok::<(u16, Seq<u8>), UdsError>((v.0, v.1@)),
            Err(e) => identified_value(reply@) == Err::<(u16, Seq<u8>), UdsError>(e),
        },
{
    if reply.len() < 3 {
        return Err(UdsError::BadLength { got: reply.len() });
    }
    if reply[0] != positive_response_sid(SID_READ_DATA) {
        return Err(UdsError::UnexpectedReply);
    }
    let value = copy_range(reply, 3, reply.len());
    assert(value@ =~= reply@.skip(3));
    Ok((read_be16(reply[1], reply[2]), value))
}

/// The trouble codes of the four-byte records from position `from` on.
fn decode_records(bytes: &[u8], from: usize) -> (r: Vec<Dtc>)
    requires
        from <= bytes@.len(),
    ensures
        dtcs_view(r@) == records_in(bytes@.skip(from as int)),
{
    let mut out: Vec<Dtc> = Vec::new();
    let mut i: usize = from;
    let ghost whole = records_in(bytes@.skip(from as int));
    assert(dtcs_view(out@) + whole =~= whole);
    while bytes.len() - i >= 4
        invariant
            from <= i <= bytes.len(),
            dtcs_view(out@) + records_in(bytes@.skip(i as int)) == whole,
        decreases bytes.len() - i,
    {
        let ghost before = dtcs_view(out@);
        let ghost rest = bytes@.skip(i as int);
        let dtc = Dtc { code: [bytes[i], bytes[i + 1], bytes[i + 2]], status: bytes[i + 3] };
        assert(rest.skip(4) =~= bytes@.skip(i + 4));
        assert(dtc.code == [rest[0], rest[1], rest[2]]);
        out.push(dtc);
        assert(dtcs_view(out@) =~= before.push((dtc.code, dtc.status)));
        assert(before + (seq![(dtc.code, dtc.status)] + records_in(rest.skip(4))) =~= dtcs_view(
            out@,
        ) + records_in(rest.skip(4)));
        i = i + 4;
    }
    assert(dtcs_view(out@) + Seq::<([u8; 3], u8)>::empty() =~= dtcs_view(out@));
    out
}

/// The trouble codes of a ReadDTCByStatusMask reply.
pub fn decode_dtcs(reply: &[u8]) -> (r: Result<Vec<Dtc>, UdsError>)
    ensures
        match r {
            Ok(v) => stored_dtcs(reply@) == Ok::<Seq<([u8; 3], u8)>, UdsError>(dtcs_view(v@)),
            Err(e) => stored_dtcs(reply@) == Err::<Seq<([u8; 3], u8)>, UdsError>(e),
        },
{
    if reply.len() < 3 || (reply.len() - 3) % 4 != 0 {
        return Err(UdsError::BadLength { got: reply.len() });
    }
    if reply[0] != positive_response_sid(SID_READ_DTC) || reply[1] != 0x02 {
        return Err(UdsError::UnexpectedReply);
    }
    Ok(decode_records(reply, 3))
}

/// The info memory in a reply; its records are those of a fault read.
pub fn decode_info_memory(reply: &[u8]) -> (r: Result<InfoMemory, UdsError>)
    ensures
        match r {
            Ok(v) => info_memory_in(reply@) == Ok::<InfoMemoryView, UdsError>(v@),
            Err(e) => info_memory_in(reply@) == Err::<InfoMemoryView, UdsError>(e),
        },
{
    if reply.len() < 3 || (reply.len() - 3) % 4 != 0 {
        return Err(UdsError::BadLength { got: reply.len() });
    }
    if reply[0] != positive_response_sid(SID_READ_DATA) || read_be16(reply[1], reply[2])
        != DID_INFO_MEMORY {
        return Err(UdsError::UnexpectedReply);
    }
    let entries = decode_records(reply, 3);
    let raw = copy_range(reply, 3, reply.len());
    assert(raw@ =~= reply@.skip(3));
    Ok(InfoMemory { entries, raw })
}

/// The info memory loses nothing of the reply: the identifier echo and the payload that is kept
/// are the whole of it, and the entries are the payload's four-byte records.
pub proof fn law_the_info_memory_keeps_its_payload(reply: Seq<u8>)
    requires
        info_memory_in(reply) is Ok,
    ensures
        reply == seq![0x62u8, 0x20u8, 0x00u8] + info_memory_in(reply)->Ok_0.raw,
        info_memory_in(reply)->Ok_0.entries == records_in(info_memory_in(reply)->Ok_0.raw),
{
    assert(reply =~= seq![0x62u8, 0x20u8, 0x00u8] + reply.skip(3));
}

/// The ECU list in the value of the gateway's list identifiers.
pub fn decode_ecu_list(value: &[u8]) -> (r: Result<EcuList, UdsError>)
    ensures
        match r {
            Ok(l) => listed_ecus(value@) == Ok::<(u16, Seq<u8>), UdsError>((l.count, l.addresses@)),
            Err(e) => listed_ecus(value@) == Err::<(u16, Seq<u8>), UdsError>(e),
        },
{
    if value.len() < 2 {
        return Err(UdsError::BadLength { got: value.len() });
    }
    let count: u16 = read_be16(value[0], value[1]);
    if value.len() - 2 < count as usize {
        return Err(UdsError::BadLength { got: value.len() });
    }
    Ok(EcuList { count, addresses: copy_range(value, 2, 2 + count as usize) })
}

/// The record region of a reply to the sub-function `subfn`.
fn decode_region(reply: &[u8], subfn: u8) -> (r: Result<DtcRecordRegion, UdsError>)
    ensures
        match r {
            Ok(g) => record_region(reply@, subfn) == Ok::<([u8; 3], u8, Seq<u8>), UdsError>(
                (g.dtc, g.status, g.body@),
            ),
            Err(e) => record_region(reply@, subfn) == Err::<([u8; 3], u8, Seq<u8>), UdsError>(e),
        },
{
    if reply.len() < 6 {
        return Err(UdsError::BadLength { got: reply.len() });
    }
    if reply[0] != positive_response_sid(SID_READ_DTC) || reply[1] != subfn {
        return Err(UdsError::UnexpectedReply);
    }
    let body = copy_range(reply, 6, reply.len());
    assert(body@ =~= reply@.skip(6));
    Ok(DtcRecordRegion { dtc: [reply[2], reply[3], reply[4]], status: reply[5], body })
}

/// The snapshot region of a `59 04` reply.
pub fn decode_dtc_snapshot(reply: &[u8]) -> (r: Result<DtcRecordRegion, UdsError>)
    ensures
        match r {
            Ok(g) => record_region(reply@, 0x04) == Ok::<([u8; 3], u8, Seq<u8>), UdsError>(
                (g.dtc, g.status, g.body@),
            ),
            Err(e) => record_region(reply@, 0x04) == Err::<([u8; 3], u8, Seq<u8>), UdsError>(e),
        },
{
    decode_region(reply, 0x04)
}

/// The extended-data region of a `59 06` reply.
pub fn decode_dtc_extended_data(reply: &[u8]) -> (r: Result<DtcRecordRegion, UdsError>)
    ensures
        match r {
            Ok(g) => record_region(reply@, 0x06) == Ok::<([u8; 3], u8, Seq<u8>), UdsError>(
                (g.dtc, g.status, g.body@),
            ),
            Err(e) => record_region(reply@, 0x06) == Err::<([u8; 3], u8, Seq<u8>), UdsError>(e),
        },
{
    decode_region(reply, 0x06)
}

/// The severity of a `59 09` reply.
pub fn decode_dtc_severity(reply: &[u8]) -> (r: Result<DtcSeverity, UdsError>)
    ensures
        match r {
            Ok(s) => severity_in(reply@) == Ok::<(u8, u8, [u8; 3], u8), UdsError>(
                (s.severity, s.functional_unit, s.dtc, s.status),
            ),
            Err(e) => severity_in(reply@) == Err::<(u8, u8, [u8; 3], u8), UdsError>(e),
        },
{
    if reply.len() != 9 {
        return Err(UdsError::BadLength { got: reply.len() });
    }
    if reply[0] != positive_response_sid(SID_READ_DTC) || reply[1] != 0x09 {
        return Err(UdsError::UnexpectedReply);
    }
    Ok(
        DtcSeverity {
            severity: reply[3],
            functional_unit: reply[4],
            dtc: [reply[5], reply[6], reply[7]],
            status: reply[8],
        },
    )
}

/// A copy of a list of trouble codes.
pub fn copy_dtcs(dtcs: &[Dtc]) -> (r: Vec<Dtc>)
    ensures
        r@ == dtcs@,
{
    let mut out: Vec<Dtc> = Vec::new();
    let mut i: usize = 0;
    while i < dtcs.len()
        invariant
            i <= dtcs.len(),
            out@ == dtcs@.take(i as int),
        decreases dtcs.len() - i,
    {
        out.push(dtcs[i]);
        assert(out@ =~= dtcs@.take(i + 1));
        i = i + 1;
    }
    assert(dtcs@.take(dtcs@.len() as int) =~= dtcs@);
    out
}

// ---------------------------------------------------------------------------
// What the services amount to
// ---------------------------------------------------------------------------

/// A reading is `62`, the identifier and the value: exactly such replies are readings, and what is
/// read is the identifier and the value.
pub proof fn law_a_reading_is_an_echo_and_a_value(did: u16, value: Seq<u8>, reply: Seq<u8>)
    ensures
        identified_value(
            seq![0x62u8, (did / 0x100) as u8, (did % 0x100) as u8] + value,
        ) == Ok::<(u16, Seq<u8>), UdsError>((did, value)),
        identified_value(reply) is Ok <==> reply.len() >= 3 && reply[0] == 0x62,
        reply.len() < 3 ==> identified_value(reply) == Err::<(u16, Seq<u8>), UdsError>(
            UdsError::BadLength { got: reply.len() as usize },
        ),
{
    let whole = seq![0x62u8, (did / 0x100) as u8, (did % 0x100) as u8] + value;
    assert(whole.skip(3) =~= value);
}

/// A request to read an identifier is `22` and the identifier, so the requests for two identifiers
/// differ.
pub proof fn law_a_read_names_its_identifier(did: u16)
    ensures
        read_request(did) == seq![0x22u8, (did / 0x100) as u8, (did % 0x100) as u8],
{
    assert(read_request(did) =~= seq![0x22u8, (did / 0x100) as u8, (did % 0x100) as u8]);
}

/// A clear names the group asked for; the group of all is three times `FF`.
pub proof fn law_a_clear_names_its_group(dtc: [u8; 3])
    ensures
        clear_request(dtc).len() == 4,
        clear_request(dtc)[0] == 0x14,
        clear_request(dtc).skip(1) == dtc@,
        clear_request(CLEAR_ALL_DTCS) == seq![0x14u8, 0xFFu8, 0xFFu8, 0xFFu8],
{
    assert(clear_request(dtc).skip(1) =~= dtc@);
    assert(clear_request(CLEAR_ALL_DTCS) =~= seq![0x14u8, 0xFFu8, 0xFFu8, 0xFFu8]);
}

/// A positive response carries the request's service with the sixth bit added, and only reads and
/// the presence ping may be sent twice.
pub proof fn law_reads_alone_may_be_sent_twice(sid: u8)
    ensures
        sid < 0xC0 ==> positive_sid(sid) == sid + 0x40,
        sid >= 0xC0 ==> positive_sid(sid) == sid - 0xC0,
        retry_safe(sid) <==> sid == 0x19 || sid == 0x22 || sid == 0x3E,
{
}

proof fn lemma_records(bytes: Seq<u8>)
    ensures
        records_in(bytes).len() == bytes.len() / 4,
        forall|i: int|
            0 <= i < bytes.len() / 4 ==> (#[trigger] records_in(bytes)[i]).0@ == bytes.subrange(
                4 * i,
                4 * i + 3,
            ) && records_in(bytes)[i].1 == bytes[4 * i + 3],
    decreases bytes.len(),
{
    if bytes.len() >= 4 {
        let rest = bytes.skip(4);
        lemma_records(rest);
        assert forall|i: int| 0 <= i < bytes.len() / 4 implies (#[trigger] records_in(bytes)[i]).0@
            == bytes.subrange(4 * i, 4 * i + 3) && records_in(bytes)[i].1 == bytes[4 * i + 3] by {
            if i == 0 {
                assert(records_in(bytes)[0] == ([bytes[0], bytes[1], bytes[2]], bytes[3]));
                assert([bytes[0], bytes[1], bytes[2]]@ =~= bytes.subrange(0, 3));
            } else {
                assert(records_in(bytes)[i] == records_in(rest)[i - 1]);
                assert(rest.subrange(4 * (i - 1), 4 * (i - 1) + 3) =~= bytes.subrange(
                    4 * i,
                    4 * i + 3,
                ));
            }
        }
    }
}

/// A fault reply is `59 02`, a mask and four bytes per fault: exactly such replies are read, and
/// every fault of them is there, in order, with its three code bytes and its status.
pub proof fn law_every_fault_of_a_reply_is_read(reply: Seq<u8>, i: int)
    requires
        0 <= i < (reply.len() - 3) / 4,
    ensures
        stored_dtcs(reply) is Ok <==> (reply.len() - 3) % 4 == 0 && reply[0] == 0x59 && reply[1]
            == 0x02,
        stored_dtcs(reply) matches Ok(faults) ==> faults.len() == (reply.len() - 3) / 4
            && faults[i].0@ == reply.subrange(3 + 4 * i, 6 + 4 * i) && faults[i].1 == reply[6 + 4
            * i],
{
    lemma_records(reply.skip(3));
    assert(reply.skip(3).subrange(4 * i, 4 * i + 3) =~= reply.subrange(3 + 4 * i, 6 + 4 * i));
    assert(reply.skip(3)[4 * i + 3] == reply[6 + 4 * i]);
}

/// A fault reply without records is a read without faults, and a shorter one is none.
pub proof fn law_an_empty_fault_reply_has_no_faults(mask: u8, reply: Seq<u8>)
    ensures
        stored_dtcs(seq![0x59u8, 0x02u8, mask]) == Ok::<Seq<([u8; 3], u8)>, UdsError>(
            Seq::<([u8; 3], u8)>::empty(),
        ),
        reply.len() < 3 || (reply.len() - 3) % 4 != 0 ==> stored_dtcs(reply) == Err::<
            Seq<([u8; 3], u8)>,
            UdsError,
        >(UdsError::BadLength { got: reply.len() as usize }),
{
}

/// The info memory has an entry for every four bytes behind the echo `62 20 00`, with its three
/// code bytes and its status.
pub proof fn law_every_info_entry_of_a_reply_is_read(reply: Seq<u8>, i: int)
    requires
        0 <= i < (reply.len() - 3) / 4,
    ensures
        info_memory_in(reply) is Ok <==> (reply.len() - 3) % 4 == 0 && reply[0] == 0x62 && reply[1]
            == 0x20 && reply[2] == 0x00,
        info_memory_in(reply) matches Ok(memory) ==> memory.entries.len() == (reply.len() - 3) / 4
            && memory.entries[i].0@ == reply.subrange(3 + 4 * i, 6 + 4 * i) && memory.entries[i].1
            == reply[6 + 4 * i] && memory.raw == reply.skip(3),
{
    lemma_records(reply.skip(3));
    assert(reply.skip(3).subrange(4 * i, 4 * i + 3) =~= reply.subrange(3 + 4 * i, 6 + 4 * i));
    assert(reply.skip(3)[4 * i + 3] == reply[6 + 4 * i]);
}

/// An ECU list is a count and as many addresses: they are read whole and in order, whatever
/// follows them, and a list that is shorter than its count is none.
pub proof fn law_an_ecu_list_reads_back(addresses: Seq<u8>, rest: Seq<u8>, value: Seq<u8>)
    requires
        addresses.len() <= 0xFFFF,
    ensures
        listed_ecus(
            seq![(addresses.len() / 0x100) as u8, (addresses.len() % 0x100) as u8] + addresses
                + rest,
        ) == Ok::<(u16, Seq<u8>), UdsError>((addresses.len() as u16, addresses)),
        value.len() < 2 || value.len() - 2 < value[0] * 0x100 + value[1] ==> listed_ecus(value)
            is Err,
{
    let whole = seq![(addresses.len() / 0x100) as u8, (addresses.len() % 0x100) as u8] + addresses
        + rest;
    assert(whole.subrange(2, 2 + addresses.len() as int) =~= addresses);
}

/// A record region is `59`, the sub-function, three code bytes, a status and the records: exactly
/// such replies have one, and it holds each part unchanged.
pub proof fn law_a_record_region_reads_back(reply: Seq<u8>, subfn: u8)
    requires
        reply.len() >= 6,
    ensures
        record_region(reply, subfn) is Ok <==> reply[0] == 0x59 && reply[1] == subfn,
        record_region(reply, subfn) matches Ok(g) ==> g.0@ == reply.subrange(2, 5) && g.1
            == reply[5] && g.2 == reply.skip(6),
{
    assert([reply[2], reply[3], reply[4]]@ =~= reply.subrange(2, 5));
}

/// A reply too short for a record region has none.
pub proof fn law_a_short_reply_has_no_region(reply: Seq<u8>, subfn: u8)
    requires
        reply.len() < 6,
    ensures
        record_region(reply, subfn) == Err::<([u8; 3], u8, Seq<u8>), UdsError>(
            UdsError::BadLength { got: reply.len() as usize },
        ),
{
}

/// A severity is `59 09`, a mask, the severity, the unit, three code bytes and a status, and
/// nothing else.
pub proof fn law_a_severity_reads_back(reply: Seq<u8>)
    ensures
        severity_in(reply) is Ok <==> reply.len() == 9 && reply[0] == 0x59 && reply[1] == 0x09,
        severity_in(reply) matches Ok(s) ==> s.0 == reply[3] && s.1 == reply[4] && s.2@
            == reply.subrange(5, 8) && s.3 == reply[8],
{
    if reply.len() == 9 {
        assert([reply[5], reply[6], reply[7]]@ =~= reply.subrange(5, 8));
    }
}

/// What is on the wire and how long is waited: the extended session, the broadcast address, the
/// two terminal-15 telegrams, which differ in their payload alone, and the waits.
pub proof fn law_the_wire_is_fixed()
    ensures
        SESSION_EXTENDED == 0x03,
        FUNCTIONAL_ADDRESS_F01 == 0xDF,
        CLAMP_TARGET == 0x40,
        KL15_OFF@ == seq![0x31u8, 0x01u8, 0x10u8, 0x01u8, 0x06u8, 0x06u8, 0xA8u8],
        KL15_ON@ == seq![0x31u8, 0x01u8, 0x10u8, 0x01u8, 0x0Au8, 0x0Au8, 0x43u8],
        CLAMP_OFF_DURATION_MS == 15_000,
        P2_STAR_SERVER_MAX_DEFAULT_MS == 5_000,
        NRC_RESPONSE_PENDING == 0x78,
        SID_NEGATIVE_RESPONSE == 0x7F,
{
    assert(KL15_OFF@ =~= seq![0x31u8, 0x01u8, 0x10u8, 0x01u8, 0x06u8, 0x06u8, 0xA8u8]);
    assert(KL15_ON@ =~= seq![0x31u8, 0x01u8, 0x10u8, 0x01u8, 0x0Au8, 0x0Au8, 0x43u8]);
}

/// The model of a value says of each field what the field holds.
pub proof fn law_a_model_shows_what_its_value_holds(info_memory: InfoMemory)
    ensures
        info_memory@.entries == dtcs_view(info_memory.entries@),
        info_memory@.raw == info_memory.raw@,
{
}

} // verus!
