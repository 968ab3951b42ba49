//! Reading who the vehicle is: its VIN, integration levels, order, and fitted ECUs.
use vstd::prelude::*;
use crate::bytes::read_be16;
use crate::client::error::{ClientError, Outcome};
use crate::client::services::{read_did, request_optional, Request};
use crate::text::{
    decimal_padded_chars, from_chars, printable_text, push_chars, same_text, to_chars, utf8_text,
};
use crate::uds::{
    decode_ecu_list, decode_read_data_by_identifier, read_data_by_identifier, EcuList,
};

verus! {

/// The request that reads one data identifier.
pub fn did_request(target: u8, did: u16) -> (r: Request)
    ensures
        r@ == (crate::client::services::RequestView {
            target,
            uds: crate::uds::read_request(did),
        }),
{
    let r = Request { target, uds: read_data_by_identifier(did) };
    assert(r@.uds =~= crate::uds::read_request(did));
    r
}

// ---------------------------------------------------------------------------
// The VIN
// ---------------------------------------------------------------------------

/// The Car Access System's diagnostic address.
pub const CAS_ADDRESS: u8 = 0x40;

/// The Footwell Module's diagnostic address.
pub const FRM_ADDRESS: u8 = 0x72;

/// The ECUs the VIN is read from, in order; the first VIN wins.
pub const VIN_LADDER: [u8; 3] = [0x10, 0x40, 0x72];

/// The "no VIN programmed" placeholder an ECU can answer with.
pub const VIN_SENTINEL: &'static str = "00000000000000000";

/// The outcome of checking that the car on the other end is still the same car.
///
/// Three outcomes, deliberately not a bool: a car that answered with a different VIN is a
/// different car, one that answered nothing has proven nothing.
#[derive(Debug, Clone, PartialEq, Eq)]
pub enum VinCheck {
    /// The VIN read matches the one the session was established with.
    Match,
    /// A VIN was read and it is a different vehicle.
    Mismatch {
        /// The VIN the session was established with.
        expected: String,
        /// The VIN just read from the car.
        found: String,
    },
    /// No VIN could be read, or it was too short to compare.
    Unreadable,
}

/// The view of a [`VinCheck`].
#[verifier::ext_equal]
pub enum VinCheckView {
    Match,
    Mismatch { expected: Seq<char>, found: Seq<char> },
    Unreadable,
}

impl View for VinCheck {
    type V = VinCheckView;

    open spec fn view(&self) -> VinCheckView {
        match *self {
            VinCheck::Match => VinCheckView::Match,
            VinCheck::Mismatch { expected, found } => VinCheckView::Mismatch {
                expected: expected@,
                found: found@,
            },
            VinCheck::Unreadable => VinCheckView::Unreadable,
        }
    }
}

/// How many characters a short VIN has: too few to tell one car from another.
pub const SHORT_VIN_LEN: usize = 7;

/// How a VIN stands to the expected one: compared character by character, neither trimmed nor
/// folded.
pub open spec fn vin_check(expected: Seq<char>, found: Option<Seq<char>>) -> VinCheckView {
    match found {
        None => VinCheckView::Unreadable,
        Some(f) => if f.len() == SHORT_VIN_LEN {
            VinCheckView::Unreadable
        } else if f == expected {
            VinCheckView::Match
        } else {
            VinCheckView::Mismatch { expected, found: f }
        },
    }
}

/// Compare a freshly read VIN against the one the session was established with.
pub fn compare_vin(expected: &str, found: Option<&str>) -> (r: VinCheck)
    ensures
        r@ == vin_check(
            expected@,
            match found {
                Some(f) => Some(f@),
                None => None,
            },
        ),
{
    let found = match found {
        Some(f) => f,
        None => {
            return VinCheck::Unreadable;
        },
    };
    let chars = to_chars(found);
    if chars.len() == SHORT_VIN_LEN {
        return VinCheck::Unreadable;
    }
    if same_text(found, expected) {
        VinCheck::Match
    } else {
        VinCheck::Mismatch { expected: expected.to_owned(), found: found.to_owned() }
    }
}

/// Only an equal VIN matches, and a VIN that could not be read is never a mismatch.
pub proof fn law_unreadable_is_no_mismatch(expected: Seq<char>, found: Option<Seq<char>>)
    ensures
        vin_check(expected, found) is Match ==> found == Some(expected),
        found is None ==> vin_check(expected, found) is Unreadable,
        vin_check(expected, found) is Mismatch ==> found is Some && found != Some(expected),
{
}

/// Decode a VIN payload into text, or `None` if it carries none: valid UTF-8, non-empty, and free
/// of control characters (an ECU pads an unset VIN with NULs).
pub fn decode_vin(raw: &[u8]) -> (r: Option<String>)
    ensures
        crate::text::opt_view(r) == crate::text::printable_text_in(raw@),
{
    printable_text(raw)
}

/// The VIN in what one rung of the ladder brought. The all-zero placeholder means that this ECU
/// has no VIN.
pub open spec fn vin_in(o: Result<Seq<u8>, ClientError>) -> Option<Seq<char>> {
    match crate::client::services::did_value_of(crate::uds::DID_VIN, o) {
        Ok(raw) => match crate::text::printable_text_in(raw) {
            Some(vin) => if vin != VIN_SENTINEL@ {
                Some(vin)
            } else {
                None
            },
            None => None,
        },
        Err(_) => None,
    }
}

/// The state of a walk up the VIN ladder.
#[verifier::ext_equal]
pub struct LadderView {
    pub rung: nat,
    pub vin: Option<Seq<char>>,
}

/// A walk up the VIN ladder: each rung is asked once, until one has a VIN.
///
/// That a rung failed is not a failure of the ladder.
#[derive(Debug)]
pub struct VinLadder {
    rung: usize,
    vin: Option<String>,
}

impl View for VinLadder {
    type V = LadderView;

    closed spec fn view(&self) -> LadderView {
        LadderView { rung: self.rung as nat, vin: crate::text::opt_view(self.vin) }
    }
}

/// The next request of the walk.
pub open spec fn ladder_request(v: LadderView) -> Option<crate::client::services::RequestView> {
    if v.vin is None && v.rung < 3 {
        Some(
            crate::client::services::RequestView {
                target: VIN_LADDER@[v.rung as int],
                uds: crate::uds::read_request(crate::uds::DID_VIN),
            },
        )
    } else {
        None
    }
}

/// The walk after one rung.
pub open spec fn ladder_recorded(v: LadderView, o: Result<Seq<u8>, ClientError>) -> LadderView {
    LadderView { rung: v.rung + 1, vin: vin_in(o) }
}

/// The walk after what the rungs brought, as far as they are asked.
pub open spec fn ladder_walked(v: LadderView, outcomes: Seq<Result<Seq<u8>, ClientError>>) -> LadderView
    decreases outcomes.len(),
{
    if outcomes.len() == 0 || ladder_request(v) is None {
        v
    } else {
        ladder_walked(ladder_recorded(v, outcomes[0]), outcomes.skip(1))
    }
}

/// The first rung that has a VIN gives it, and the walk ends there; a rung that errors, answers
/// with nothing or with the placeholder falls through to the next.
pub proof fn law_the_first_vin_wins(
    zgw: Result<Seq<u8>, ClientError>,
    cas: Result<Seq<u8>, ClientError>,
    frm: Result<Seq<u8>, ClientError>,
)
    ensures
        ({
            let end = ladder_walked(LadderView { rung: 0, vin: None }, seq![zgw, cas, frm]);
            &&& end.vin == crate::text::first_of(
                vin_in(zgw),
                crate::text::first_of(vin_in(cas), vin_in(frm)),
            )
            &&& ladder_request(end) is None
            &&& end.rung == if vin_in(zgw) is Some {
                1nat
            } else if vin_in(cas) is Some {
                2
            } else {
                3
            }
        }),
{
    reveal_with_fuel(ladder_walked, 4);
    let all = seq![zgw, cas, frm];
    assert(all.skip(1) =~= seq![cas, frm]);
    assert(all.skip(1).skip(1) =~= seq![frm]);
}

impl VinLadder {
    /// Start at the bottom of the ladder.
    pub fn start() -> (r: VinLadder)
        ensures
            r@ == (LadderView { rung: 0, vin: None }),
    {
        VinLadder { rung: 0, vin: None }
    }

    /// The next request, if a rung is left and no VIN was found.
    pub fn next(&self) -> (r: Option<Request>)
        ensures
            crate::client::services::opt_request_view(r) == ladder_request(self@),
    {
        if self.vin.is_some() || self.rung >= 3 {
            return None;
        }
        let target: u8 = VIN_LADDER[self.rung];
        Some(did_request(target, crate::uds::DID_VIN))
    }

    /// Take what the rung brought.
    pub fn record(&mut self, outcome: Outcome)
        requires
            ladder_request(old(self)@) is Some,
        ensures
            final(self)@ == ladder_recorded(
                old(self)@,
                crate::client::error::outcome_view(outcome),
            ),
    {
        self.rung = self.rung + 1;
        let raw = match read_did(crate::uds::DID_VIN, outcome) {
            Ok(raw) => raw,
            Err(_) => {
                return;
            },
        };
        match decode_vin(raw.as_slice()) {
            Some(vin) => {
                if !same_text(vin.as_str(), VIN_SENTINEL) {
                    self.vin = Some(vin);
                }
            },
            None => {},
        }
    }

    /// The VIN, if a rung had one.
    pub fn finish(self) -> (r: Option<String>)
        ensures
            crate::text::opt_view(r) == self@.vin,
    {
        self.vin
    }
}

// ---------------------------------------------------------------------------
// Integration levels
// ---------------------------------------------------------------------------

/// The vehicle's three integration levels. The later records are `None` on a short payload.
#[derive(Debug, Clone, PartialEq, Eq)]
pub struct IStufeLevels {
    /// The current integration level (e.g. `F025-23-07-530`).
    pub current: String,
    /// The previous level, if the record is present.
    pub previous: Option<String>,
    /// The factory (construction-time) level, if the record is present.
    pub factory: Option<String>,
}

/// The view of [`IStufeLevels`].
#[verifier::ext_equal]
pub struct LevelsView {
    pub current: Seq<char>,
    pub previous: Option<Seq<char>>,
    pub factory: Option<Seq<char>>,
}

impl View for IStufeLevels {
    type V = LevelsView;

    open spec fn view(&self) -> LevelsView {
        LevelsView {
            current: self.current@,
            previous: crate::text::opt_view(self.previous),
            factory: crate::text::opt_view(self.factory),
        }
    }
}

/// Whether a byte is a printable ASCII character other than the space.
pub open spec fn is_graphic(b: u8) -> bool {
    0x21 <= b <= 0x7E
}

/// The level in one record: four series characters, year, month, and a two-byte patch, written
/// `SERIES-YY-MM-PPP`.
pub open spec fn level_text(record: Seq<u8>) -> Seq<char> {
    Seq::new(4, |i: int| record[i] as char) + seq!['-'] + crate::text::decimal_padded(
        record[4] as nat,
        2,
    ) + seq!['-'] + crate::text::decimal_padded(record[5] as nat, 2) + seq!['-']
        + crate::text::decimal_padded(crate::bytes::be16(record[6], record[7]) as nat, 3)
}

/// The `index`th level of a payload, if it is long enough and its series is printable.
pub open spec fn level_in(raw: Seq<u8>, index: int) -> Option<Seq<char>> {
    if raw.len() < index * 8 + 8 {
        None
    } else {
        let record = raw.subrange(index * 8, index * 8 + 8);
        if forall|i: int| 0 <= i < 4 ==> is_graphic(#[trigger] record[i]) {
            Some(level_text(record))
        } else {
            None
        }
    }
}

/// The levels of a payload: current, previous, factory.
pub open spec fn levels_in(raw: Seq<u8>) -> Option<LevelsView> {
    match level_in(raw, 0) {
        Some(current) => Some(
            LevelsView { current, previous: level_in(raw, 1), factory: level_in(raw, 2) },
        ),
        None => None,
    }
}

/// Decode the `index`th record of a gateway integration-level payload.
///
/// Records are ordered current (0), previous (1), factory (2). `None` when the payload is too
/// short for the record or its series field is not printable ASCII.
pub fn decode_i_stufe_record(raw: &[u8], index: usize) -> (r: Option<String>)
    ensures
        crate::text::opt_view(r) == level_in(raw@, index as int),
{
    if index >= raw.len() / 8 {
        return None;
    }
    let at: usize = index * 8;
    let ghost record = raw@.subrange(at as int, at + 8);
    let mut out: Vec<char> = Vec::new();
    let mut i: usize = 0;
    while i < 4
        invariant
            i <= 4,
            at == index * 8,
            at + 8 <= raw.len(),
            record == raw@.subrange(at as int, at + 8),
            out@ == Seq::new(i as nat, |k: int| record[k] as char),
            forall|k: int| 0 <= k < i ==> is_graphic(#[trigger] record[k]),
        decreases 4 - i,
    {
        let b: u8 = raw[at + i];
        assert(b == record[i as int]);
        if b < 0x21 || b > 0x7E {
            assert(!is_graphic(record[i as int]));
            return None;
        }
        out.push(b as char);
        assert(out@ =~= Seq::new((i + 1) as nat, |k: int| record[k] as char));
        i = i + 1;
    }
    out.push('-');
    let year = decimal_padded_chars(raw[at + 4] as u64, 2);
    push_chars(&mut out, year.as_slice());
    out.push('-');
    let month = decimal_padded_chars(raw[at + 5] as u64, 2);
    push_chars(&mut out, month.as_slice());
    out.push('-');
    let patch = decimal_padded_chars(read_be16(raw[at + 6], raw[at + 7]) as u64, 3);
    push_chars(&mut out, patch.as_slice());
    assert(out@ =~= level_text(record));
    Some(from_chars(out.as_slice()))
}

/// The integration levels in what a read of them brought; `None` where the gateway refuses, or
/// not even the current record parses.
pub open spec fn levels_of(o: Result<Seq<u8>, ClientError>) -> Result<Option<LevelsView>, ClientError> {
    match crate::client::services::optional_of(o) {
        Ok(Some(reply)) => match crate::uds::identified_value(reply) {
            Ok((_, raw)) => Ok(levels_in(raw)),
            Err(e) => Err(ClientError::Uds(e)),
        },
        Ok(None) => Ok(None),
        Err(e) => Err(e),
    }
}

/// The view of a level read's result.
pub open spec fn levels_result(r: Result<Option<IStufeLevels>, ClientError>) -> Result<
    Option<LevelsView>,
    ClientError,
> {
    match r {
        Ok(Some(levels)) => Ok(Some(levels@)),
        Ok(None) => Ok(None),
        Err(e) => Err(e),
    }
}

/// All three integration levels, from what a read of `22 10 0B` brought.
pub fn read_i_stufe_levels(outcome: Outcome) -> (r: Result<Option<IStufeLevels>, ClientError>)
    ensures
        levels_result(r) == levels_of(crate::client::error::outcome_view(outcome)),
{
    let reply = match request_optional(outcome) {
        Ok(Some(reply)) => reply,
        Ok(None) => {
            return Ok(None);
        },
        Err(e) => {
            return Err(e);
        },
    };
    let raw = match decode_read_data_by_identifier(reply.as_slice()) {
        Ok((_, raw)) => raw,
        Err(e) => {
            return Err(ClientError::Uds(e));
        },
    };
    match decode_i_stufe_record(raw.as_slice(), 0) {
        Some(current) => Ok(
            Some(
                IStufeLevels {
                    current,
                    previous: decode_i_stufe_record(raw.as_slice(), 1),
                    factory: decode_i_stufe_record(raw.as_slice(), 2),
                },
            ),
        ),
        None => Ok(None),
    }
}

// ---------------------------------------------------------------------------
// ECU lists
// ---------------------------------------------------------------------------

/// The addresses in what a read of the installed-ECU list brought.
pub open spec fn ecu_list_of(o: Result<Seq<u8>, ClientError>) -> Result<(u16, Seq<u8>), ClientError> {
    match crate::client::services::did_value_of(crate::uds::DID_ECU_LIST_ALL, o) {
        Ok(value) => match crate::uds::listed_ecus(value) {
            Ok(list) => Ok(list),
            Err(e) => Err(ClientError::Uds(e)),
        },
        Err(e) => Err(e),
    }
}

/// The view of a list read's result.
pub open spec fn list_result(r: Result<EcuList, ClientError>) -> Result<(u16, Seq<u8>), ClientError> {
    match r {
        Ok(list) => Ok((list.count, list.addresses@)),
        Err(e) => Err(e),
    }
}

/// The gateway's installed-ECU list, from what a read of `22 3F 07` brought.
pub fn read_ecu_list(outcome: Outcome) -> (r: Result<EcuList, ClientError>)
    ensures
        list_result(r) == ecu_list_of(crate::client::error::outcome_view(outcome)),
{
    match read_did(crate::uds::DID_ECU_LIST_ALL, outcome) {
        Ok(value) => match decode_ecu_list(value.as_slice()) {
            Ok(list) => Ok(list),
            Err(e) => Err(ClientError::Uds(e)),
        },
        Err(e) => Err(e),
    }
}

/// The responding ECUs in what a read of that list brought; `None` where the gateway refuses.
pub open spec fn responding_of(o: Result<Seq<u8>, ClientError>) -> Result<
    Option<(u16, Seq<u8>)>,
    ClientError,
> {
    match crate::client::services::optional_of(o) {
        Ok(Some(reply)) => match crate::uds::identified_value(reply) {
            Ok((_, value)) => match crate::uds::listed_ecus(value) {
                Ok(list) => Ok(Some(list)),
                Err(e) => Err(ClientError::Uds(e)),
            },
            Err(e) => Err(ClientError::Uds(e)),
        },
        Ok(None) => Ok(None),
        Err(e) => Err(e),
    }
}

/// The view of an optional list read's result.
pub open spec fn opt_list_result(r: Result<Option<EcuList>, ClientError>) -> Result<
    Option<(u16, Seq<u8>)>,
    ClientError,
> {
    match r {
        Ok(Some(list)) => Ok(Some((list.count, list.addresses@))),
        Ok(None) => Ok(None),
        Err(e) => Err(e),
    }
}

/// The gateway's actively-responding ECU list, from what a read of `22 3F 08` brought.
pub fn read_responding_ecu_list(outcome: Outcome) -> (r: Result<Option<EcuList>, ClientError>)
    ensures
        opt_list_result(r) == responding_of(crate::client::error::outcome_view(outcome)),
{
    let reply = match request_optional(outcome) {
        Ok(Some(reply)) => reply,
        Ok(None) => {
            return Ok(None);
        },
        Err(e) => {
            return Err(e);
        },
    };
    let value = match decode_read_data_by_identifier(reply.as_slice()) {
        Ok((_, value)) => value,
        Err(e) => {
            return Err(ClientError::Uds(e));
        },
    };
    match decode_ecu_list(value.as_slice()) {
        Ok(list) => Ok(Some(list)),
        Err(e) => Err(ClientError::Uds(e)),
    }
}

// ---------------------------------------------------------------------------
// One ECU's identification
// ---------------------------------------------------------------------------

/// The ISO-standardized identification DIDs. An ECU serves only some of them.
pub const IDENTIFICATION_DIDS: [u16; 12] = [
    0xF190,
    0xF187,
    0xF188,
    0xF189,
    0xF191,
    0xF192,
    0xF193,
    0xF194,
    0xF195,
    0xF197,
    0xF19E,
    0xF18C,
];

/// How many identification DIDs there are.
pub const IDENTIFICATION_COUNT: usize = 12;

/// One identification DID's raw value from an ECU.
#[derive(Debug, Clone, PartialEq, Eq)]
pub struct IdField {
    /// The DID read.
    pub did: u16,
    /// The raw value bytes, exactly as the ECU returned them.
    pub raw: Vec<u8>,
}

/// One ECU's identification block: the standardized DIDs it actually served.
#[derive(Debug, Clone, PartialEq, Eq)]
pub struct EcuIdentification {
    /// The ECU's diagnostic address.
    pub address: u8,
    /// The DIDs that answered (refusals are skipped).
    pub fields: Vec<IdField>,
}

/// The views of identification fields.
pub open spec fn fields_view(v: Seq<IdField>) -> Seq<(u16, Seq<u8>)> {
    Seq::new(v.len(), |i: int| (v[i].did, v[i].raw@))
}

/// The state of an identification read.
#[verifier::ext_equal]
pub struct IdentificationView {
    pub address: u8,
    /// The position of the DID to read next.
    pub at: nat,
    pub fields: Seq<(u16, Seq<u8>)>,
    pub failure: Option<ClientError>,
}

/// The read of one ECU's identification block.
#[derive(Debug)]
pub struct Identification {
    address: u8,
    at: usize,
    fields: Vec<IdField>,
    failure: Option<ClientError>,
}

impl View for Identification {
    type V = IdentificationView;

    closed spec fn view(&self) -> IdentificationView {
        IdentificationView {
            address: self.address,
            at: self.at as nat,
            fields: fields_view(self.fields@),
            failure: self.failure,
        }
    }
}

/// The identification read before its first request.
pub open spec fn identification_start(address: u8) -> IdentificationView {
    IdentificationView {
        address,
        at: 0,
        fields: Seq::<(u16, Seq<u8>)>::empty(),
        failure: None,
    }
}

/// The next request of an identification read.
pub open spec fn identification_request(v: IdentificationView) -> Option<
    crate::client::services::RequestView,
> {
    if v.failure is None && v.at < IDENTIFICATION_COUNT {
        Some(
            crate::client::services::RequestView {
                target: v.address,
                uds: crate::uds::read_request(IDENTIFICATION_DIDS@[v.at as int]),
            },
        )
    } else {
        None
    }
}

/// The identification read after one reply. A DID that is refused, or whose reply echoes another
/// one, is skipped; any other error, and a reply that cannot be decoded, ends the read.
pub open spec fn identification_recorded(
    v: IdentificationView,
    o: Result<Seq<u8>, ClientError>,
) -> IdentificationView {
    let did = IDENTIFICATION_DIDS@[v.at as int];
    let next = IdentificationView { at: v.at + 1, ..v };
    match crate::client::services::optional_of(o) {
        Ok(Some(reply)) => match crate::uds::identified_value(reply) {
            Ok((got, raw)) => if got == did {
                IdentificationView { fields: v.fields.push((did, raw)), ..next }
            } else {
                next
            },
            Err(e) => IdentificationView { failure: Some(ClientError::Uds(e)), ..v },
        },
        Ok(None) => next,
        Err(e) => IdentificationView { failure: Some(e), ..v },
    }
}

/// Whether every field is one of the DIDs asked so far, each at most once and in the order asked.
pub open spec fn fields_in_order(v: IdentificationView) -> bool {
    &&& v.fields.len() <= v.at <= IDENTIFICATION_COUNT
    &&& exists|places: Seq<int>| places_of(v, places)
}

/// Whether `places` are the ascending positions of the fields' DIDs among those asked.
pub open spec fn places_of(v: IdentificationView, places: Seq<int>) -> bool {
    &&& places.len() == v.fields.len()
    &&& forall|i: int|
        0 <= i < places.len() ==> 0 <= #[trigger] places[i] < v.at && v.fields[i].0
            == IDENTIFICATION_DIDS@[places[i]]
    &&& forall|i: int, j: int| 0 <= i < j < places.len() ==> places[i] < places[j]
}

/// The block holds only what was asked for, at most once, in the order of the DIDs.
pub proof fn law_the_block_holds_only_what_was_asked(
    v: IdentificationView,
    o: Result<Seq<u8>, ClientError>,
)
    requires
        fields_in_order(v),
        identification_request(v) is Some,
    ensures
        fields_in_order(identification_recorded(v, o)),
{
    let places = choose|places: Seq<int>| places_of(v, places);
    let next = identification_recorded(v, o);
    if next.fields.len() == v.fields.len() {
        assert(places_of(next, places));
    } else {
        assert(places_of(next, places.push(v.at as int)));
    }
}

/// An identification read starts with an empty block.
pub proof fn law_an_identification_starts_empty(address: u8)
    ensures
        fields_in_order(identification_start(address)),
{
    assert(places_of(identification_start(address), Seq::<int>::empty()));
}

impl Identification {
    /// Start the identification read of one ECU.
    pub fn start(address: u8) -> (r: Identification)
        ensures
            r@ == identification_start(address),
    {
        let r = Identification { address, at: 0, fields: Vec::new(), failure: None };
        assert(r@.fields =~= Seq::<(u16, Seq<u8>)>::empty());
        r
    }

    /// The next request, if one is left.
    pub fn next(&self) -> (r: Option<Request>)
        ensures
            crate::client::services::opt_request_view(r) == identification_request(self@),
    {
        if self.failure.is_some() || self.at >= IDENTIFICATION_COUNT {
            return None;
        }
        let did: u16 = IDENTIFICATION_DIDS[self.at];
        Some(did_request(self.address, did))
    }

    /// Take what the request brought.
    pub fn record(&mut self, outcome: Outcome)
        requires
            identification_request(old(self)@) is Some,
        ensures
            final(self)@ == identification_recorded(
                old(self)@,
                crate::client::error::outcome_view(outcome),
            ),
    {
        let did: u16 = IDENTIFICATION_DIDS[self.at];
        let ghost before = self@.fields;
        match request_optional(outcome) {
            Ok(Some(reply)) => {
                match decode_read_data_by_identifier(reply.as_slice()) {
                    Ok((got, raw)) => {
                        if got == did {
                            let ghost view = raw@;
                            self.fields.push(IdField { did, raw });
                            assert(self@.fields =~= before.push((did, view)));
                        }
                        self.at = self.at + 1;
                    },
                    Err(e) => {
                        self.failure = Some(ClientError::Uds(e));
                    },
                }
            },
            Ok(None) => {
                self.at = self.at + 1;
            },
            Err(e) => {
                self.failure = Some(e);
            },
        }
    }

    /// The block, or what ended the read.
    pub fn finish(self) -> (r: Result<EcuIdentification, ClientError>)
        ensures
            match r {
                Ok(block) => self@.failure is None && block.address == self@.address && fields_view(
                    block.fields@,
                ) == self@.fields,
                Err(e) => self@.failure == Some(e),
            },
    {
        match self.failure {
            Some(e) => Err(e),
            None => Ok(EcuIdentification { address: self.address, fields: self.fields }),
        }
    }
}

// ---------------------------------------------------------------------------
// The whole vehicle
// ---------------------------------------------------------------------------

/// The whole-vehicle identity: VIN, raw vehicle order, integration level, the installed
/// addresses, and each one's identification block.
#[derive(Debug, Clone, PartialEq, Eq)]
pub struct VehicleIdentity {
    /// The vehicle's VIN, if the gateway answered with one.
    pub vin: Option<String>,
    /// The raw vehicle-order bytes.
    pub vehicle_order_raw: Vec<u8>,
    /// The current integration level, if the gateway answered with one.
    pub i_stufe: Option<String>,
    /// The installed diagnostic addresses.
    pub ecus: Vec<u8>,
    /// Each installed ECU's identification block.
    pub identification: Vec<EcuIdentification>,
}

/// The state of a vehicle identification.
#[verifier::ext_equal]
pub struct VehicleView {
    /// How many of the gateway's four reads were taken: list, VIN, level, order.
    pub taken: nat,
    pub ecus: Seq<u8>,
    pub vin: Option<Seq<char>>,
    pub i_stufe: Option<Seq<char>>,
    pub order: Seq<u8>,
    /// The blocks of the ECUs asked so far: address and fields.
    pub blocks: Seq<(u8, Seq<(u16, Seq<u8>)>)>,
    pub failure: Option<ClientError>,
}

/// The identification of the whole vehicle: the gateway's installed list, its VIN, integration
/// level and vehicle order, and then each installed ECU.
///
/// Only a failing read of the list ends the identification: a VIN, level or order that cannot be
/// had is missing, and an ECU that cannot be identified has an empty block.
#[derive(Debug)]
pub struct VehicleIdentification {
    taken: u8,
    ecus: Vec<u8>,
    vin: Option<String>,
    i_stufe: Option<String>,
    order: Vec<u8>,
    blocks: Vec<EcuIdentification>,
    failure: Option<ClientError>,
}

/// The views of identification blocks.
pub open spec fn blocks_view(v: Seq<EcuIdentification>) -> Seq<(u8, Seq<(u16, Seq<u8>)>)> {
    Seq::new(v.len(), |i: int| (v[i].address, fields_view(v[i].fields@)))
}

impl View for VehicleIdentification {
    type V = VehicleView;

    closed spec fn view(&self) -> VehicleView {
        VehicleView {
            taken: self.taken as nat,
            ecus: self.ecus@,
            vin: crate::text::opt_view(self.vin),
            i_stufe: crate::text::opt_view(self.i_stufe),
            order: self.order@,
            blocks: blocks_view(self.blocks@),
            failure: self.failure,
        }
    }
}

/// The identification of a vehicle before its first read.
pub open spec fn vehicle_start() -> VehicleView {
    VehicleView {
        taken: 0,
        ecus: Seq::<u8>::empty(),
        vin: None,
        i_stufe: None,
        order: Seq::<u8>::empty(),
        blocks: Seq::<(u8, Seq<(u16, Seq<u8>)>)>::empty(),
        failure: None,
    }
}

/// The identifier of the gateway's read number `n`.
pub open spec fn vehicle_did(n: nat) -> u16 {
    if n == 0 {
        crate::uds::DID_ECU_LIST_ALL
    } else if n == 1 {
        crate::uds::DID_VIN
    } else if n == 2 {
        crate::uds::DID_I_STUFE
    } else {
        crate::uds::DID_VEHICLE_ORDER
    }
}

/// What to do next in a vehicle identification.
pub enum VehicleStep {
    /// Send this request, then [`VehicleIdentification::record`].
    Send(Request),
    /// Identify this ECU, then [`VehicleIdentification::record_ecu`].
    Identify(u8),
    /// Nothing is left to read.
    Done,
}

/// The view of a [`VehicleStep`].
pub enum VehicleStepView {
    Send(crate::client::services::RequestView),
    Identify(u8),
    Done,
}

impl View for VehicleStep {
    type V = VehicleStepView;

    open spec fn view(&self) -> VehicleStepView {
        match *self {
            VehicleStep::Send(r) => VehicleStepView::Send(r@),
            VehicleStep::Identify(address) => VehicleStepView::Identify(address),
            VehicleStep::Done => VehicleStepView::Done,
        }
    }
}

/// What to do next.
pub open spec fn vehicle_step(v: VehicleView) -> VehicleStepView {
    if v.failure is Some {
        VehicleStepView::Done
    } else if v.taken < 4 {
        VehicleStepView::Send(
            crate::client::services::RequestView {
                target: crate::hsfz::ZGW_ADDRESS,
                uds: crate::uds::read_request(vehicle_did(v.taken)),
            },
        )
    } else if v.blocks.len() < v.ecus.len() {
        VehicleStepView::Identify(v.ecus[v.blocks.len() as int])
    } else {
        VehicleStepView::Done
    }
}

/// The identification after one of the gateway's reads.
pub open spec fn vehicle_recorded(v: VehicleView, o: Result<Seq<u8>, ClientError>) -> VehicleView {
    let next = VehicleView { taken: v.taken + 1, ..v };
    if v.taken == 0 {
        match ecu_list_of(o) {
            Ok((_, addresses)) => VehicleView { ecus: addresses, ..next },
            Err(e) => VehicleView { failure: Some(e), ..v },
        }
    } else if v.taken == 1 {
        match crate::client::services::did_value_of(crate::uds::DID_VIN, o) {
            Ok(raw) => VehicleView { vin: crate::text::utf8_text_in(raw), ..next },
            Err(_) => next,
        }
    } else if v.taken == 2 {
        match levels_of(o) {
            Ok(Some(levels)) => VehicleView { i_stufe: Some(levels.current), ..next },
            _ => next,
        }
    } else {
        match crate::client::services::did_value_of(crate::uds::DID_VEHICLE_ORDER, o) {
            Ok(raw) => VehicleView { order: raw, ..next },
            Err(_) => next,
        }
    }
}

/// The identification after one ECU: one that could not be read has an empty block.
pub open spec fn vehicle_ecu_recorded(
    v: VehicleView,
    fields: Option<Seq<(u16, Seq<u8>)>>,
) -> VehicleView {
    VehicleView {
        blocks: v.blocks.push(
            (
                v.ecus[v.blocks.len() as int],
                match fields {
                    Some(fields) => fields,
                    None => Seq::<(u16, Seq<u8>)>::empty(),
                },
            ),
        ),
        ..v
    }
}

/// The fields that an ECU's identification gave.
pub open spec fn fields_of(r: Result<EcuIdentification, ClientError>) -> Option<
    Seq<(u16, Seq<u8>)>,
> {
    match r {
        Ok(block) => Some(fields_view(block.fields@)),
        Err(_) => None,
    }
}

/// What holds at every step: the blocks so far are those of the first ECUs, in order.
pub open spec fn vehicle_inv(v: VehicleView) -> bool {
    &&& v.taken <= 4
    &&& v.blocks.len() <= v.ecus.len()
    &&& v.taken < 4 ==> v.blocks.len() == 0
    &&& v.taken > 0 ==> v.failure is None
    &&& forall|i: int| 0 <= i < v.blocks.len() ==> (#[trigger] v.blocks[i]).0 == v.ecus[i]
}

/// Once the list was read nothing ends the identification early: whatever the other reads and
/// the ECUs bring, no failure is recorded, and it finishes with a block for every ECU.
pub proof fn law_only_the_list_can_fail(
    v: VehicleView,
    o: Result<Seq<u8>, ClientError>,
    fields: Option<Seq<(u16, Seq<u8>)>>,
)
    requires
        vehicle_inv(v),
        v.taken > 0,
    ensures
        v.failure is None,
        vehicle_step(v) is Send ==> vehicle_recorded(v, o).failure is None && vehicle_recorded(
            v,
            o,
        ).taken == v.taken + 1 && vehicle_recorded(v, o).ecus == v.ecus,
        vehicle_step(v) is Identify ==> vehicle_ecu_recorded(v, fields).failure is None
            && vehicle_ecu_recorded(v, fields).ecus == v.ecus,
        vehicle_step(v) is Done ==> v.blocks.len() == v.ecus.len(),
{
}

/// Every step of an identification keeps its blocks in line with the installed list.
pub proof fn law_every_ecu_gets_its_block(
    v: VehicleView,
    o: Result<Seq<u8>, ClientError>,
    fields: Option<Seq<(u16, Seq<u8>)>>,
)
    requires
        vehicle_inv(v),
    ensures
        vehicle_inv(vehicle_start()),
        vehicle_step(v) is Send ==> vehicle_inv(vehicle_recorded(v, o)),
        vehicle_step(v) is Identify ==> vehicle_inv(vehicle_ecu_recorded(v, fields)),
        vehicle_step(v) is Done && v.failure is None ==> v.blocks.len() == v.ecus.len(),
{
}

impl VehicleIdentification {
    /// The blocks so far are those of the first ECUs, in order.
    #[verifier::type_invariant]
    spec fn in_line(self) -> bool {
        vehicle_inv(self@)
    }

    /// Start the identification of a vehicle.
    pub fn start() -> (r: VehicleIdentification)
        ensures
            r@ == vehicle_start(),
            vehicle_inv(r@),
    {
        let r = VehicleIdentification {
            taken: 0,
            ecus: Vec::new(),
            vin: None,
            i_stufe: None,
            order: Vec::new(),
            blocks: Vec::new(),
            failure: None,
        };
        assert(r@.blocks =~= vehicle_start().blocks);
        r
    }

    /// What to do next.
    pub fn next(&self) -> (r: VehicleStep)
        ensures
            r@ == vehicle_step(self@),
    {
        proof {
            use_type_invariant(self);
        }
        if self.failure.is_some() {
            return VehicleStep::Done;
        }
        if self.taken < 4 {
            let did: u16 = if self.taken == 0 {
                crate::uds::DID_ECU_LIST_ALL
            } else if self.taken == 1 {
                crate::uds::DID_VIN
            } else if self.taken == 2 {
                crate::uds::DID_I_STUFE
            } else {
                crate::uds::DID_VEHICLE_ORDER
            };
            return VehicleStep::Send(did_request(crate::hsfz::ZGW_ADDRESS, did));
        }
        if self.blocks.len() < self.ecus.len() {
            return VehicleStep::Identify(self.ecus[self.blocks.len()]);
        }
        VehicleStep::Done
    }

    /// Take what one of the gateway's reads brought.
    pub fn record(&mut self, outcome: Outcome)
        requires
            vehicle_step(old(self)@) is Send,
        ensures
            final(self)@ == vehicle_recorded(
                old(self)@,
                crate::client::error::outcome_view(outcome),
            ),
            vehicle_inv(final(self)@),
    {
        proof {
            use_type_invariant(&*self);
        }
        if self.taken == 0 {
            match read_ecu_list(outcome) {
                Ok(list) => {
                    self.ecus = list.addresses;
                },
                Err(e) => {
                    self.failure = Some(e);
                    return;
                },
            }
        } else if self.taken == 1 {
            match read_did(crate::uds::DID_VIN, outcome) {
                Ok(raw) => {
                    self.vin = utf8_text(raw.as_slice());
                },
                Err(_) => {},
            }
        } else if self.taken == 2 {
            match read_i_stufe_levels(outcome) {
                Ok(Some(levels)) => {
                    self.i_stufe = Some(levels.current);
                },
                _ => {},
            }
        } else {
            match read_did(crate::uds::DID_VEHICLE_ORDER, outcome) {
                Ok(raw) => {
                    self.order = raw;
                },
                Err(_) => {},
            }
        }
        self.taken = self.taken + 1;
    }

    /// Take what identifying one ECU brought.
    pub fn record_ecu(&mut self, result: Result<EcuIdentification, ClientError>)
        requires
            vehicle_step(old(self)@) is Identify,
        ensures
            final(self)@ == vehicle_ecu_recorded(old(self)@, fields_of(result)),
            vehicle_inv(final(self)@),
    {
        proof {
            use_type_invariant(&*self);
        }
        let ghost before = self@.blocks;
        let address: u8 = self.ecus[self.blocks.len()];
        let fields = match result {
            Ok(block) => block.fields,
            Err(_) => Vec::new(),
        };
        let ghost view = fields_view(fields@);
        proof {
            if fields_of(result) is None {
                assert(view =~= Seq::<(u16, Seq<u8>)>::empty());
            }
        }
        let mut blocks: Vec<EcuIdentification> = Vec::new();
        std::mem::swap(&mut blocks, &mut self.blocks);
        blocks.push(EcuIdentification { address, fields });
        assert(blocks_view(blocks@) =~= before.push((address, view)));
        self.blocks = blocks;
    }

    /// The identity, or what ended the identification.
    pub fn finish(self) -> (r: Result<VehicleIdentity, ClientError>)
        ensures
            match r {
                Ok(identity) => self@.failure is None && crate::text::opt_view(identity.vin)
                    == self@.vin && crate::text::opt_view(identity.i_stufe) == self@.i_stufe
                    && identity.vehicle_order_raw@ == self@.order && identity.ecus@ == self@.ecus
                    && blocks_view(identity.identification@) == self@.blocks,
                Err(e) => self@.failure == Some(e),
            },
    {
        match self.failure {
            Some(e) => Err(e),
            None => Ok(
                VehicleIdentity {
                    vin: self.vin,
                    vehicle_order_raw: self.order,
                    i_stufe: self.i_stufe,
                    ecus: self.ecus,
                    identification: self.blocks,
                },
            ),
        }
    }
}

// ---------------------------------------------------------------------------
// What the identification amounts to
// ---------------------------------------------------------------------------

/// A VIN matches if and only if it is the expected one and not a short one; it is unreadable if
/// and only if there is none or it has seven characters; in every other case it is another car's,
/// and both are named.
pub proof fn law_a_vin_is_compared_whole(expected: Seq<char>, found: Option<Seq<char>>)
    ensures
        vin_check(expected, found) is Unreadable <==> (found is None || found->0.len() == 7),
        vin_check(expected, found) is Match <==> found == Some(expected) && expected.len() != 7,
        vin_check(expected, found) matches VinCheckView::Mismatch { expected: e, found: f } ==> e
            == expected && Some(f) == found,
{
}

/// The VIN of a rung is the printable text behind the echo of its identifier, but for the all-zero
/// placeholder; a rung that echoes another identifier, or fails, has none.
pub proof fn law_a_rung_gives_the_vin_behind_its_echo(raw: Seq<u8>, did: u16, e: ClientError)
    ensures
        vin_in(Ok(seq![0x62u8, 0xF1u8, 0x90u8] + raw)) == (
        if crate::text::printable_text_in(raw) == Some("00000000000000000"@) {
            None
        } else {
            crate::text::printable_text_in(raw)
        }),
        did != 0xF190 ==> vin_in(
            Ok(seq![0x62u8, (did / 0x100) as u8, (did % 0x100) as u8] + raw),
        ) is None,
        vin_in(Err(e)) is None,
{
    crate::uds::law_a_reading_is_an_echo_and_a_value(0xF190, raw, raw);
    crate::uds::law_a_reading_is_an_echo_and_a_value(did, raw, raw);
}

/// The ladder asks the gateway, the access system and the footwell module for the VIN, in that
/// order, and stops at the first that has one.
pub proof fn law_the_ladder_asks_three_ecus(v: LadderView)
    ensures
        ladder_request(v) is Some <==> v.vin is None && v.rung < 3,
        ladder_request(v) matches Some(r) ==> r.uds == seq![0x22u8, 0xF1u8, 0x90u8] && r.target
            == seq![0x10u8, 0x40u8, 0x72u8][v.rung as int],
{
    crate::uds::law_a_read_names_its_identifier(0xF190);
    assert(VIN_LADDER@ =~= seq![0x10u8, 0x40u8, 0x72u8]);
}

/// A payload of records gives each level in its place: four characters, then year, month and patch
/// with at least two, two and three digits. A level whose four characters are not all graphic, or
/// whose record is cut, is none.
pub proof fn law_each_level_is_its_record(
    front: Seq<u8>,
    series: Seq<u8>,
    year: u8,
    month: u8,
    patch: u16,
    rest: Seq<u8>,
    index: int,
)
    requires
        0 <= index,
        front.len() == 8 * index,
        series.len() == 4,
    ensures
        ({
            let raw = front + series + seq![
                year,
                month,
                (patch / 0x100) as u8,
                (patch % 0x100) as u8,
            ] + rest;
            &&& level_in(raw, index) is Some <==> forall|i: int|
                0 <= i < 4 ==> '!' <= (#[trigger] series[i]) as char <= '~'
            &&& (level_in(raw, index) matches Some(text) ==> text == seq![
                series[0] as char,
                series[1] as char,
                series[2] as char,
                series[3] as char,
                '-',
            ] + crate::text::decimal_padded(year as nat, 2) + seq!['-']
                + crate::text::decimal_padded(month as nat, 2) + seq!['-']
                + crate::text::decimal_padded(patch as nat, 3))
            &&& level_in(raw.take(8 * index + 7), index) is None
        }),
{
    let raw = front + series + seq![
        year,
        month,
        (patch / 0x100) as u8,
        (patch % 0x100) as u8,
    ] + rest;
    let record = raw.subrange(index * 8, index * 8 + 8);
    assert(forall|i: int| 0 <= i < 4 ==> #[trigger] record[i] == series[i]);
    assert(record[4] == year && record[5] == month);
    assert(record[6] == (patch / 0x100) as u8 && record[7] == (patch % 0x100) as u8);
    assert(crate::bytes::be16(record[6], record[7]) == patch);
    if forall|i: int| 0 <= i < 4 ==> '!' <= (#[trigger] series[i]) as char <= '~' {
        assert forall|i: int| 0 <= i < 4 implies is_graphic(#[trigger] record[i]) by {
            assert('!' <= series[i] as char <= '~');
        }
    }
    if forall|i: int| 0 <= i < 4 ==> is_graphic(#[trigger] record[i]) {
        assert forall|i: int| 0 <= i < 4 implies '!' <= (#[trigger] series[i]) as char <= '~' by {
            assert(is_graphic(record[i]));
        }
        assert(Seq::new(4, |i: int| record[i] as char) + seq!['-'] =~= seq![
            series[0] as char,
            series[1] as char,
            series[2] as char,
            series[3] as char,
            '-',
        ]);
    }
}

/// The levels of a payload are its first, second and third record: current, previous, factory.
/// Without a current one there are none; the others may be missing one by one.
pub proof fn law_levels_are_the_three_records(raw: Seq<u8>)
    ensures
        levels_in(raw) is Some <==> level_in(raw, 0) is Some,
        levels_in(raw) matches Some(levels) ==> Some(levels.current) == level_in(raw, 0)
            && levels.previous == level_in(raw, 1) && levels.factory == level_in(raw, 2),
{
}

/// A read of the levels gives those in the value; a gateway that refuses has none.
pub proof fn law_a_level_read_is_what_the_value_says(
    value: Seq<u8>,
    sid: u8,
    nrc: u8,
    e: ClientError,
)
    ensures
        levels_of(Ok(seq![0x62u8, 0x10u8, 0x0Bu8] + value)) == Ok::<
            Option<LevelsView>,
            ClientError,
        >(levels_in(value)),
        levels_of(Err(ClientError::Negative { sid, nrc })) == Ok::<
            Option<LevelsView>,
            ClientError,
        >(None),
        !(e is Negative) ==> levels_of(Err(e)) == Err::<Option<LevelsView>, ClientError>(e),
{
    crate::uds::law_a_reading_is_an_echo_and_a_value(0x100B, value, value);
}

/// A list read gives every address that the gateway lists, in its order.
pub proof fn law_a_list_read_gives_every_address(
    addresses: Seq<u8>,
    sid: u8,
    nrc: u8,
    e: ClientError,
)
    requires
        addresses.len() <= 0xFFFF,
    ensures
        ({
            let list = seq![(addresses.len() / 0x100) as u8, (addresses.len() % 0x100) as u8]
                + addresses;
            &&& ecu_list_of(Ok(seq![0x62u8, 0x3Fu8, 0x07u8] + list)) == Ok::<
                (u16, Seq<u8>),
                ClientError,
            >((addresses.len() as u16, addresses))
            &&& responding_of(Ok(seq![0x62u8, 0x3Fu8, 0x08u8] + list)) == Ok::<
                Option<(u16, Seq<u8>)>,
                ClientError,
            >(Some((addresses.len() as u16, addresses)))
        }),
        ecu_list_of(Err(e)) == Err::<(u16, Seq<u8>), ClientError>(e),
        responding_of(Err(ClientError::Negative { sid, nrc })) == Ok::<
            Option<(u16, Seq<u8>)>,
            ClientError,
        >(None),
        !(e is Negative) ==> responding_of(Err(e)) == Err::<Option<(u16, Seq<u8>)>, ClientError>(e),
{
    let list = seq![(addresses.len() / 0x100) as u8, (addresses.len() % 0x100) as u8] + addresses;
    crate::uds::law_a_reading_is_an_echo_and_a_value(0x3F07, list, list);
    crate::uds::law_a_reading_is_an_echo_and_a_value(0x3F08, list, list);
    crate::uds::law_an_ecu_list_reads_back(addresses, Seq::<u8>::empty(), list);
    assert(list + Seq::<u8>::empty() =~= list);
}

/// The identification of an ECU asks it for twelve identifiers, in this order.
pub proof fn law_an_identification_asks_twelve_identifiers(v: IdentificationView)
    ensures
        identification_request(v) is Some <==> v.failure is None && v.at < 12,
        identification_request(v) matches Some(r) ==> r.target == v.address && r.uds == seq![
            0x22u8,
            0xF1u8,
            seq![
                0x90u8, 0x87u8, 0x88u8, 0x89u8, 0x91u8, 0x92u8, 0x93u8, 0x94u8, 0x95u8, 0x97u8,
                0x9Eu8, 0x8Cu8,
            ][v.at as int],
        ],
{
    if identification_request(v) is Some {
        let did = IDENTIFICATION_DIDS@[v.at as int];
        crate::uds::law_a_read_names_its_identifier(did);
        assert(did == 0xF100 + seq![
            0x90u8, 0x87u8, 0x88u8, 0x89u8, 0x91u8, 0x92u8, 0x93u8, 0x94u8, 0x95u8, 0x97u8,
            0x9Eu8, 0x8Cu8,
        ][v.at as int]);
        assert(crate::uds::read_request(did) =~= seq![
            0x22u8,
            0xF1u8,
            seq![
                0x90u8, 0x87u8, 0x88u8, 0x89u8, 0x91u8, 0x92u8, 0x93u8, 0x94u8, 0x95u8, 0x97u8,
                0x9Eu8, 0x8Cu8,
            ][v.at as int],
        ]);
    }
}

/// A reply to an identification adds the value behind its echo as a field of that identifier, as
/// it is. A reply that echoes another identifier, and a refusal, add nothing and go on; any other
/// error ends the read.
pub proof fn law_an_identification_keeps_each_value(
    v: IdentificationView,
    did: u16,
    value: Seq<u8>,
    sid: u8,
    nrc: u8,
    e: ClientError,
)
    requires
        identification_request(v) is Some,
        !(e is Negative),
    ensures
        ({
            let request = identification_request(v)->0;
            let next = identification_recorded(
                v,
                Ok(seq![0x62u8, (did / 0x100) as u8, (did % 0x100) as u8] + value),
            );
            let refused = identification_recorded(v, Err(ClientError::Negative { sid, nrc }));
            let failed = identification_recorded(v, Err(e));
            &&& next.address == v.address && next.at == v.at + 1 && next.failure is None
            &&& next.fields == (if request.uds == seq![
                0x22u8,
                (did / 0x100) as u8,
                (did % 0x100) as u8,
            ] {
                v.fields.push((did, value))
            } else {
                v.fields
            })
            &&& refused == (IdentificationView { at: v.at + 1, ..v })
            &&& failed.failure == Some(e)
            &&& identification_request(failed) is None
        }),
{
    crate::uds::law_a_reading_is_an_echo_and_a_value(did, value, value);
    let asked = IDENTIFICATION_DIDS@[v.at as int];
    crate::uds::law_a_read_names_its_identifier(asked);
    let echoed = seq![0x22u8, (did / 0x100) as u8, (did % 0x100) as u8];
    if crate::uds::read_request(asked) == echoed {
        assert(crate::uds::read_request(asked)[1] == echoed[1]);
        assert(crate::uds::read_request(asked)[2] == echoed[2]);
        assert(asked == did);
    }
}

/// The identification of a vehicle after these identifications of its ECUs.
pub open spec fn ecus_recorded(
    v: VehicleView,
    results: Seq<Result<EcuIdentification, ClientError>>,
) -> VehicleView
    decreases results.len(),
{
    if results.len() == 0 {
        v
    } else {
        vehicle_ecu_recorded(ecus_recorded(v, results.drop_last()), fields_of(results.last()))
    }
}

/// Whether a block is what identifying an ECU gave: all its fields, in order and unchanged, and
/// none where the identification failed.
pub open spec fn is_the_block_of(
    block: (u8, Seq<(u16, Seq<u8>)>),
    address: u8,
    result: Result<EcuIdentification, ClientError>,
) -> bool {
    &&& block.0 == address
    &&& (result is Err ==> block.1.len() == 0)
    &&& (result matches Ok(given) ==> block.1.len() == given.fields@.len() && forall|j: int|
        0 <= j < given.fields@.len() ==> (#[trigger] block.1[j]).0 == given.fields@[j].did
            && block.1[j].1 == given.fields@[j].raw@)
}

/// Each listed ECU is identified in turn, and its block is what its own identification gave: the
/// fields of every ECU are there, under its address and unchanged, and a block is empty only where
/// the identification failed or gave no field.
pub proof fn law_a_block_is_what_the_ecu_gave(
    v: VehicleView,
    results: Seq<Result<EcuIdentification, ClientError>>,
)
    requires
        vehicle_inv(v),
        v.taken == 4,
        v.failure is None,
        v.blocks.len() == 0,
        results.len() <= v.ecus.len(),
    ensures
        ({
            let after = ecus_recorded(v, results);
            &&& after == (VehicleView { blocks: after.blocks, ..v })
            &&& after.blocks.len() == results.len()
            &&& forall|k: int|
                0 <= k < results.len() ==> is_the_block_of(
                    #[trigger] after.blocks[k],
                    v.ecus[k],
                    results[k],
                )
            &&& (if results.len() < v.ecus.len() {
                vehicle_step(after) == VehicleStepView::Identify(v.ecus[results.len() as int])
            } else {
                vehicle_step(after) is Done
            })
        }),
    decreases results.len(),
{
    if results.len() > 0 {
        let short = results.drop_last();
        law_a_block_is_what_the_ecu_gave(v, short);
        let before = ecus_recorded(v, short);
        let after = ecus_recorded(v, results);
        assert forall|k: int| 0 <= k < results.len() implies is_the_block_of(
            #[trigger] after.blocks[k],
            v.ecus[k],
            results[k],
        ) by {
            if k < short.len() {
                assert(after.blocks[k] == before.blocks[k]);
                assert(short[k] == results[k]);
            }
        }
    }
}

/// The identification of a vehicle, from beginning to end: the gateway is asked for the list, the
/// VIN, the levels and the order, in that order, and each answer ends up in its own place. The list
/// gives the ECUs to identify; the others may fail one by one and are then left empty.
pub proof fn law_a_vehicle_is_what_its_gateway_says(
    addresses: Seq<u8>,
    vin: Seq<u8>,
    levels: Seq<u8>,
    order: Seq<u8>,
    e: ClientError,
)
    requires
        addresses.len() <= 0xFFFF,
    ensures
        ({
            let list = seq![(addresses.len() / 0x100) as u8, (addresses.len() % 0x100) as u8]
                + addresses;
            let start = vehicle_start();
            let listed = vehicle_recorded(start, Ok(seq![0x62u8, 0x3Fu8, 0x07u8] + list));
            let named = vehicle_recorded(listed, Ok(seq![0x62u8, 0xF1u8, 0x90u8] + vin));
            let leveled = vehicle_recorded(named, Ok(seq![0x62u8, 0x10u8, 0x0Bu8] + levels));
            let ordered = vehicle_recorded(leveled, Ok(seq![0x62u8, 0x3Fu8, 0x06u8] + order));
            let unordered = vehicle_recorded(
                vehicle_recorded(vehicle_recorded(listed, Err(e)), Err(e)),
                Err(e),
            );
            let request = |a: u8, b: u8|
                VehicleStepView::Send(
                    crate::client::services::RequestView { target: 0x10, uds: seq![0x22u8, a, b] },
                );
            &&& vehicle_step(start) == request(0x3F, 0x07)
            &&& vehicle_step(listed) == request(0xF1, 0x90)
            &&& vehicle_step(named) == request(0x10, 0x0B)
            &&& vehicle_step(leveled) == request(0x3F, 0x06)
            &&& (addresses.len() > 0 ==> vehicle_step(ordered) == VehicleStepView::Identify(
                addresses[0],
            ))
            &&& (addresses.len() == 0 ==> vehicle_step(ordered) is Done)
            &&& ordered.taken == 4 && ordered.failure is None && ordered.blocks.len() == 0
            &&& ordered.ecus == addresses
            &&& ordered.vin == crate::text::utf8_text_in(vin)
            &&& ordered.i_stufe == level_in(levels, 0)
            &&& ordered.order == order
            &&& unordered.ecus == addresses && unordered.vin is None && unordered.i_stufe is None
                && unordered.order.len() == 0 && unordered.failure is None && unordered.taken == 4
            &&& vehicle_recorded(start, Err(e)).failure == Some(e)
            &&& vehicle_step(vehicle_recorded(start, Err(e))) is Done
        }),
{
    let list = seq![(addresses.len() / 0x100) as u8, (addresses.len() % 0x100) as u8] + addresses;
    law_a_list_read_gives_every_address(addresses, 0, 0, e);
    law_a_level_read_is_what_the_value_says(levels, 0, 0, e);
    crate::uds::law_a_reading_is_an_echo_and_a_value(0xF190, vin, vin);
    crate::uds::law_a_reading_is_an_echo_and_a_value(0x3F06, order, order);
    crate::uds::law_a_read_names_its_identifier(0x3F07);
    crate::uds::law_a_read_names_its_identifier(0xF190);
    crate::uds::law_a_read_names_its_identifier(0x100B);
    crate::uds::law_a_read_names_its_identifier(0x3F06);
}

/// The model of a value says of each field what the field holds.
pub proof fn law_a_model_shows_what_its_value_holds(
    i_stufe_levels: IStufeLevels,
    expected: String,
    found: String,
)
    ensures
        (VinCheck::Mismatch { expected, found })@ == (VinCheckView::Mismatch {
            expected: expected@,
            found: found@,
        }),
        i_stufe_levels@.current == i_stufe_levels.current@,
        i_stufe_levels@.previous == crate::text::opt_view(i_stufe_levels.previous),
        i_stufe_levels@.factory == crate::text::opt_view(i_stufe_levels.factory),
{
}

} // verus!
