//! Sequences of requests to one ECU that change state, or read through transient state.
//!
//! Each is sent in order and ends at the first request that fails. Whether to run one is the
//! caller's to decide.
use vstd::prelude::*;
use crate::bytes::{copy_bytes, read_be16};
use crate::client::error::{ClientError, Outcome};
use crate::client::services::Request;
use crate::uds::{
    clear_diagnostic_information, decode_read_data_by_identifier, diagnostic_session_control,
    routine_control, tester_present,
};

verus! {

// ---------------------------------------------------------------------------
// Scripts
// ---------------------------------------------------------------------------

/// The views of byte strings.
pub open spec fn byte_views(v: Seq<Vec<u8>>) -> Seq<Seq<u8>> {
    Seq::new(v.len(), |i: int| v[i]@)
}

/// The state of a script.
#[verifier::ext_equal]
pub struct ScriptView {
    pub target: u8,
    pub requests: Seq<Seq<u8>>,
    /// Whether a reply to a read must echo the identifier that its request asks for.
    pub echoed: bool,
    pub replies: Seq<Seq<u8>>,
    pub failure: Option<ClientError>,
}

/// An ordered list of requests to one ECU.
#[derive(Debug)]
pub struct Script {
    target: u8,
    requests: Vec<Vec<u8>>,
    echoed: bool,
    replies: Vec<Vec<u8>>,
    failure: Option<ClientError>,
}

impl View for Script {
    type V = ScriptView;

    closed spec fn view(&self) -> ScriptView {
        ScriptView {
            target: self.target,
            requests: byte_views(self.requests@),
            echoed: self.echoed,
            replies: byte_views(self.replies@),
            failure: self.failure,
        }
    }
}

/// Whether a request is a ReadDataByIdentifier.
pub open spec fn is_read(request: Seq<u8>) -> bool {
    request.len() > 0 && request[0] == crate::uds::SID_READ_DATA
}

/// The script before its first request.
pub open spec fn script_start(target: u8, requests: Seq<Seq<u8>>, echoed: bool) -> ScriptView {
    ScriptView { target, requests, echoed, replies: Seq::<Seq<u8>>::empty(), failure: None }
}

/// The next request of a script.
pub open spec fn script_request(v: ScriptView) -> Option<crate::client::services::RequestView> {
    if v.failure is None && v.replies.len() < v.requests.len() {
        Some(
            crate::client::services::RequestView {
                target: v.target,
                uds: v.requests[v.replies.len() as int],
            },
        )
    } else {
        None
    }
}

/// What a reply means to its request: the reply itself, if the request is no read or the reply
/// echoes what was asked for.
pub open spec fn checked(request: Seq<u8>, echoed: bool, o: Result<Seq<u8>, ClientError>) -> Result<
    Seq<u8>,
    ClientError,
> {
    match o {
        Ok(reply) => if echoed && is_read(request) && request.len() >= 3 {
            match crate::client::services::did_value_of(
                crate::bytes::be16(request[1], request[2]) as u16,
                o,
            ) {
                Ok(_) => Ok(reply),
                Err(e) => Err(e),
            }
        } else {
            Ok(reply)
        },
        Err(e) => Err(e),
    }
}

/// The script after what one request brought.
pub open spec fn script_recorded(v: ScriptView, o: Result<Seq<u8>, ClientError>) -> ScriptView {
    match checked(v.requests[v.replies.len() as int], v.echoed, o) {
        Ok(reply) => ScriptView { replies: v.replies.push(reply), ..v },
        Err(e) => ScriptView { failure: Some(e), ..v },
    }
}

/// A script's requests are sent in order, one for one, and none is sent after a failure.
pub proof fn law_a_script_runs_in_order_until_it_fails(
    v: ScriptView,
    o: Result<Seq<u8>, ClientError>,
)
    requires
        script_request(v) is Some,
    ensures
        script_recorded(v, o).failure is Some ==> script_request(script_recorded(v, o)) is None,
        script_recorded(v, o).failure is None ==> script_recorded(v, o).replies.len()
            == v.replies.len() + 1,
        o is Err ==> script_recorded(v, o).failure == Some(o->Err_0),
        script_recorded(v, o).requests == v.requests && script_recorded(v, o).target == v.target,
{
}

/// The clear of one DTC group on one ECU: the extended session first, which a clear takes.
pub open spec fn clear_script(target: u8, dtc: [u8; 3]) -> ScriptView {
    script_start(target, seq![seq![0x10u8, 0x03u8], crate::uds::clear_request(dtc)], false)
}

/// Nothing that clears or switches ever resets an ECU, whatever is cleared and wherever the clear
/// or the terminal-15 cycle stands.
pub proof fn law_no_clear_resets_an_ecu(
    target: u8,
    dtc: [u8; 3],
    replies: Seq<Seq<u8>>,
    cycle: ClampCycle,
)
    ensures
        script_request(ScriptView { replies, ..clear_script(target, dtc) }) matches Some(request)
            ==> request.uds[0] != crate::uds::SID_ECU_RESET,
        functional_clear().uds[0] != crate::uds::SID_ECU_RESET,
        store_clear().uds[0] != crate::uds::SID_ECU_RESET,
        clamp_step(cycle) matches ClampStepView::Send(request) ==> request.uds[0]
            != crate::uds::SID_ECU_RESET,
{
}

/// The position of the last read among requests.
pub open spec fn last_read(requests: Seq<Seq<u8>>) -> Option<int>
    decreases requests.len(),
{
    if requests.len() == 0 {
        None
    } else if is_read(requests.last()) {
        Some(requests.len() - 1)
    } else {
        last_read(requests.drop_last())
    }
}

impl Script {
    /// A script of these requests.
    fn new(target: u8, requests: Vec<Vec<u8>>, echoed: bool) -> (r: Script)
        ensures
            r@ == script_start(target, byte_views(requests@), echoed),
    {
        let r = Script { target, requests, echoed, replies: Vec::new(), failure: None };
        assert(r@.replies =~= Seq::<Seq<u8>>::empty());
        r
    }

    /// Clear one DTC group: the extended session first, then the clear.
    pub fn clear_dtcs(target: u8, dtc: [u8; 3]) -> (r: Script)
        ensures
            r@ == clear_script(target, dtc),
    {
        let session = diagnostic_session_control(crate::uds::SESSION_EXTENDED);
        let clear = clear_diagnostic_information(dtc);
        assert(session@ =~= seq![0x10u8, 0x03u8]);
        assert(clear@ =~= crate::uds::clear_request(dtc));
        let requests: Vec<Vec<u8>> = vec![session, clear];
        assert(byte_views(requests@) =~= seq![seq![0x10u8, 0x03u8], crate::uds::clear_request(dtc)]);
        Script::new(target, requests, false)
    }

    /// Clear every DTC (`14 FF FF FF`).
    pub fn clear_all_dtcs(target: u8) -> (r: Script)
        ensures
            r@ == clear_script(target, crate::uds::CLEAR_ALL_DTCS),
    {
        Script::clear_dtcs(target, crate::uds::CLEAR_ALL_DTCS)
    }

    /// Reset a maintenance counter and read its block back: the extended session, the write, the
    /// read.
    pub fn reset_cbs(target: u8, reset_request: &[u8], read_back_request: &[u8]) -> (r: Script)
        ensures
            r@ == script_start(
                target,
                seq![seq![0x10u8, 0x03u8], reset_request@, read_back_request@],
                false,
            ),
    {
        let session = diagnostic_session_control(crate::uds::SESSION_EXTENDED);
        assert(session@ =~= seq![0x10u8, 0x03u8]);
        let requests: Vec<Vec<u8>> = vec![
            session,
            copy_bytes(reset_request),
            copy_bytes(read_back_request),
        ];
        assert(byte_views(requests@) =~= seq![
            seq![0x10u8, 0x03u8],
            reset_request@,
            read_back_request@,
        ]);
        Script::new(target, requests, false)
    }

    /// Run a single-shot service reset: the extended session, then the reset.
    pub fn run_service_reset(target: u8, request: &[u8]) -> (r: Script)
        ensures
            r@ == script_start(target, seq![seq![0x10u8, 0x03u8], request@], false),
    {
        let session = diagnostic_session_control(crate::uds::SESSION_EXTENDED);
        assert(session@ =~= seq![0x10u8, 0x03u8]);
        let requests: Vec<Vec<u8>> = vec![session, copy_bytes(request)];
        assert(byte_views(requests@) =~= seq![seq![0x10u8, 0x03u8], request@]);
        Script::new(target, requests, false)
    }

    /// Read a dynamic measurement: its requests (clear, define, read), each read's reply echoing
    /// the identifier asked for.
    ///
    /// Defining a dynamic identifier is transient, session-scoped ECU state, so this stays an
    /// autonomous-safe read.
    pub fn read_dynamic_measurement(target: u8, requests: Vec<Vec<u8>>) -> (r: Script)
        requires
            forall|i: int|
                0 <= i < requests@.len() && is_read((#[trigger] requests@[i])@) ==> requests@[i]@.len()
                    >= 3,
        ensures
            r@ == script_start(target, byte_views(requests@), true),
    {
        Script::new(target, requests, true)
    }

    /// The next request, if one is left.
    pub fn next(&self) -> (r: Option<Request>)
        ensures
            crate::client::services::opt_request_view(r) == script_request(self@),
    {
        if self.failure.is_some() || self.replies.len() >= self.requests.len() {
            return None;
        }
        Some(
            Request {
                target: self.target,
                uds: copy_bytes(self.requests[self.replies.len()].as_slice()),
            },
        )
    }

    /// Take what the request brought.
    pub fn record(&mut self, outcome: Outcome)
        requires
            script_request(old(self)@) is Some,
        ensures
            final(self)@ == script_recorded(
                old(self)@,
                crate::client::error::outcome_view(outcome),
            ),
    {
        let reply = match outcome {
            Ok(reply) => reply,
            Err(e) => {
                self.failure = Some(e);
                return;
            },
        };
        let ghost before = self@;
        let request = &self.requests[self.replies.len()];
        assert(request@ == before.requests[before.replies.len() as int]);
        if self.echoed && request.len() >= 3 && request[0] == crate::uds::SID_READ_DATA {
            let requested: u16 = read_be16(request[1], request[2]);
            match decode_read_data_by_identifier(reply.as_slice()) {
                Ok((got, _)) => {
                    if got != requested {
                        self.failure = Some(ClientError::UnexpectedDid { requested, got });
                        return;
                    }
                },
                Err(e) => {
                    self.failure = Some(ClientError::Uds(e));
                    return;
                },
            }
        }
        let ghost view = reply@;
        self.replies.push(reply);
        assert(self@.replies =~= before.replies.push(view));
    }

    /// The replies, or what ended the script.
    pub fn finish(self) -> (r: Result<Vec<Vec<u8>>, ClientError>)
        ensures
            match r {
                Ok(replies) => self@.failure is None && byte_views(replies@) == self@.replies,
                Err(e) => self@.failure == Some(e),
            },
    {
        match self.failure {
            Some(e) => Err(e),
            None => Ok(self.replies),
        }
    }

    /// The last reply of the script, or what ended it: the positive response of a service reset.
    pub fn last_reply(self) -> (r: Result<Option<Vec<u8>>, ClientError>)
        ensures
            match r {
                Ok(Some(reply)) => self@.failure is None && self@.replies.len() > 0 && reply@
                    == self@.replies.last(),
                Ok(None) => self@.failure is None && self@.replies.len() == 0,
                Err(e) => self@.failure == Some(e),
            },
    {
        match self.failure {
            Some(e) => Err(e),
            None => {
                let mut replies = self.replies;
                Ok(replies.pop())
            },
        }
    }

    /// The value in the script's last reply: the maintenance block read back after a reset.
    pub fn read_back(self) -> (r: Result<Vec<u8>, ClientError>)
        requires
            self@.failure is None ==> self@.replies.len() > 0,
        ensures
            crate::client::error::outcome_view(r) == (match self@.failure {
                Some(e) => Err::<Seq<u8>, ClientError>(e),
                None => match crate::uds::identified_value(self@.replies.last()) {
                    Ok((_, block)) => Ok::<Seq<u8>, ClientError>(block),
                    Err(e) => Err::<Seq<u8>, ClientError>(ClientError::Uds(e)),
                },
            }),
    {
        if let Some(e) = self.failure {
            return Err(e);
        }
        let last = &self.replies[self.replies.len() - 1];
        assert(last@ == self@.replies.last());
        match decode_read_data_by_identifier(last.as_slice()) {
            Ok((_, block)) => Ok(block),
            Err(e) => Err(ClientError::Uds(e)),
        }
    }

    /// The value that the script's last read brought: a dynamic measurement's raw bytes.
    ///
    /// A finished script without a read has no value: [`ClientError::NoMeasurementRead`].
    pub fn read_value(self) -> (r: Result<Vec<u8>, ClientError>)
        requires
            self@.failure is None ==> self@.replies.len() == self@.requests.len(),
        ensures
            crate::client::error::outcome_view(r) == script_value(self@),
    {
        if let Some(e) = self.failure {
            return Err(e);
        }
        let ghost requests = self@.requests;
        let mut i: usize = self.requests.len();
        assert(requests.take(i as int) =~= requests);
        while i > 0
            invariant
                i <= self.requests.len(),
                requests == self@.requests,
                self@.failure is None,
                self@.replies.len() == self@.requests.len(),
                last_read(requests) == last_read(requests.take(i as int)),
            decreases i,
        {
            i = i - 1;
            assert(requests.take(i + 1).drop_last() =~= requests.take(i as int));
            assert(requests.take(i + 1).last() == requests[i as int]);
            let request = &self.requests[i];
            assert(request@ == requests[i as int]);
            if request.len() > 0 && request[0] == crate::uds::SID_READ_DATA {
                assert(last_read(requests) == Some(i as int));
                assert(self@.replies[i as int] == self.replies@[i as int]@);
                return match decode_read_data_by_identifier(self.replies[i].as_slice()) {
                    Ok((_, raw)) => Ok(raw),
                    Err(e) => Err(ClientError::Uds(e)),
                };
            }
        }
        Err(ClientError::NoMeasurementRead)
    }
}

/// The value that a finished script's last read brought.
pub open spec fn script_value(v: ScriptView) -> Result<Seq<u8>, ClientError> {
    match v.failure {
        Some(e) => Err(e),
        None => match last_read(v.requests) {
            Some(i) => match crate::uds::identified_value(v.replies[i]) {
                Ok((_, raw)) => Ok(raw),
                Err(e) => Err(ClientError::Uds(e)),
            },
            None => Err(ClientError::NoMeasurementRead),
        },
    }
}

/// The routine that clears the gateway's combined fault store.
pub const ZFS_CLEAR_ROUTINE: u16 = 0x4000;

/// The single value byte the store-clear routine carries.
pub const ZFS_CLEAR_VALUE: u8 = 0x00;

/// The clear of the gateway's own combined fault store.
pub open spec fn store_clear() -> crate::client::services::RequestView {
    crate::client::services::RequestView {
        target: crate::hsfz::ZGW_ADDRESS,
        uds: seq![0x31u8, 0x01u8, 0x40u8, 0x00u8, 0x00u8],
    }
}

/// The clear of every ECU at once.
pub open spec fn functional_clear() -> crate::client::services::RequestView {
    crate::client::services::RequestView {
        target: crate::uds::FUNCTIONAL_ADDRESS_F01,
        uds: seq![0x14u8, 0xFFu8, 0xFFu8, 0xFFu8],
    }
}

/// The request that clears the gateway's own combined fault store: `31 01 40 00 00`.
pub fn clear_gateway_combined_store() -> (r: Request)
    ensures
        r@ == store_clear(),
{
    let value: Vec<u8> = vec![ZFS_CLEAR_VALUE];
    let r = Request {
        target: crate::hsfz::ZGW_ADDRESS,
        uds: routine_control(crate::uds::START_ROUTINE, ZFS_CLEAR_ROUTINE, value.as_slice()),
    };
    assert(r@.uds =~= seq![0x31u8, 0x01u8, 0x40u8, 0x00u8, 0x00u8]);
    r
}

/// The functional request that clears every DTC on every ECU at once: `14 FF FF FF` to `0xDF`,
/// with no session change before it.
pub fn clear_all_dtcs_functional() -> (r: Request)
    ensures
        r@ == functional_clear(),
{
    let r = Request {
        target: crate::uds::FUNCTIONAL_ADDRESS_F01,
        uds: clear_diagnostic_information(crate::uds::CLEAR_ALL_DTCS),
    };
    assert(r@.uds =~= seq![0x14u8, 0xFFu8, 0xFFu8, 0xFFu8]);
    r
}

/// The request that asks an ECU whether it is there: `3E 00`.
pub fn tester_present_request(target: u8) -> (r: Request)
    ensures
        r@ == (crate::client::services::RequestView { target, uds: seq![0x3Eu8, 0x00u8] }),
{
    let r = Request { target, uds: tester_present() };
    assert(r@.uds =~= seq![0x3Eu8, 0x00u8]);
    r
}

// ---------------------------------------------------------------------------
// The terminal-15 cycle
// ---------------------------------------------------------------------------

/// Where a terminal-15 cycle stands.
#[derive(Debug)]
pub enum ClampStage {
    /// Terminal 15 is to be switched off.
    Off,
    /// It is off, and stays so for the hold.
    Holding,
    /// It is to be switched on.
    On,
    /// The first attempt to switch it on failed; it gets a second.
    OnAgain(ClientError),
    /// It is on again.
    Done,
    /// The cycle failed.
    Failed(ClientError),
}

/// The cycle of terminal 15 that resets the instrument cluster after a clear: off, a hold, on.
///
/// Terminal 15 is down until the second switch succeeds, so that one gets a second attempt.
#[derive(Debug)]
pub struct ClampCycle {
    pub stage: ClampStage,
    /// How long terminal 15 stays down, in milliseconds.
    pub hold: u64,
}

/// What to do next in a terminal-15 cycle.
#[derive(Debug)]
pub enum ClampStep {
    /// Send this request, then [`ClampCycle::record`].
    Send(Request),
    /// Wait this many milliseconds, then [`ClampCycle::rested`].
    Sleep(u64),
    /// Nothing is left to do.
    Done,
}

/// The view of a [`ClampStep`].
pub enum ClampStepView {
    Send(crate::client::services::RequestView),
    Sleep(u64),
    Done,
}

impl View for ClampStep {
    type V = ClampStepView;

    open spec fn view(&self) -> ClampStepView {
        match *self {
            ClampStep::Send(r) => ClampStepView::Send(r@),
            ClampStep::Sleep(ms) => ClampStepView::Sleep(ms),
            ClampStep::Done => ClampStepView::Done,
        }
    }
}

/// The request that switches terminal 15 off.
pub open spec fn clamp_off() -> crate::client::services::RequestView {
    crate::client::services::RequestView {
        target: crate::uds::CLAMP_TARGET,
        uds: crate::uds::KL15_OFF@,
    }
}

/// The request that switches terminal 15 on.
pub open spec fn clamp_on() -> crate::client::services::RequestView {
    crate::client::services::RequestView {
        target: crate::uds::CLAMP_TARGET,
        uds: crate::uds::KL15_ON@,
    }
}

/// What to do next.
pub open spec fn clamp_step(c: ClampCycle) -> ClampStepView {
    match c.stage {
        ClampStage::Off => ClampStepView::Send(clamp_off()),
        ClampStage::Holding => ClampStepView::Sleep(c.hold),
        ClampStage::On => ClampStepView::Send(clamp_on()),
        ClampStage::OnAgain(_) => ClampStepView::Send(clamp_on()),
        ClampStage::Done => ClampStepView::Done,
        ClampStage::Failed(_) => ClampStepView::Done,
    }
}

/// The stage after what a switch brought. A switch-off that failed dropped nothing; a switch-on
/// that failed twice may leave terminal 15 down, and its first failure is the one reported.
pub open spec fn clamp_recorded(stage: ClampStage, failure: Option<ClientError>) -> ClampStage {
    match (stage, failure) {
        (ClampStage::Off, None) => ClampStage::Holding,
        (ClampStage::Off, Some(e)) => ClampStage::Failed(
            ClientError::ClampSwitch { phase: "off", restored: true, source: Box::new(e) },
        ),
        (ClampStage::On, None) => ClampStage::Done,
        (ClampStage::On, Some(e)) => ClampStage::OnAgain(e),
        (ClampStage::OnAgain(_), None) => ClampStage::Done,
        (ClampStage::OnAgain(first), Some(_)) => ClampStage::Failed(
            ClientError::ClampSwitch { phase: "on", restored: false, source: Box::new(first) },
        ),
        _ => stage,
    }
}

/// The failure of an outcome.
pub open spec fn failure_of(outcome: Outcome) -> Option<ClientError> {
    match outcome {
        Ok(_) => None,
        Err(e) => Some(e),
    }
}

/// Whether terminal 15 may be down at this stage.
pub open spec fn may_be_down(stage: ClampStage) -> bool {
    match stage {
        ClampStage::Off => false,
        ClampStage::Holding => true,
        ClampStage::On => true,
        ClampStage::OnAgain(_) => true,
        ClampStage::Done => false,
        ClampStage::Failed(e) => e matches ClientError::ClampSwitch { restored, .. } && !restored,
    }
}

/// A failure tells truly whether terminal 15 is up: a failed switch-off never dropped it, and a
/// cycle ends with it down only after two failed attempts to switch it on.
pub proof fn law_a_failed_cycle_says_whether_terminal_15_is_up(
    stage: ClampStage,
    failure: Option<ClientError>,
)
    requires
        stage is Off || stage is On || stage is OnAgain,
    ensures
        ({
            let next = clamp_recorded(stage, failure);
            &&& next is Failed ==> next->Failed_0 is ClampSwitch
            &&& next is Failed && stage is Off ==> !may_be_down(next)
            &&& next is Failed && may_be_down(next) ==> stage is OnAgain && failure is Some
            &&& next is Done ==> failure is None && (stage is On || stage is OnAgain)
        }),
{
}

impl ClampCycle {
    /// Start a cycle with the production hold.
    pub fn cycle_terminal_15() -> (r: ClampCycle)
        ensures
            r.stage is Off,
            r.hold == crate::uds::CLAMP_OFF_DURATION_MS,
    {
        ClampCycle { stage: ClampStage::Off, hold: crate::uds::CLAMP_OFF_DURATION_MS }
    }

    /// What to do next.
    pub fn next(&self) -> (r: ClampStep)
        ensures
            r@ == clamp_step(*self),
    {
        match &self.stage {
            ClampStage::Off => {
                let bytes = crate::uds::KL15_OFF;
                ClampStep::Send(
                    Request {
                        target: crate::uds::CLAMP_TARGET,
                        uds: copy_bytes(bytes.as_slice()),
                    },
                )
            },
            ClampStage::Holding => ClampStep::Sleep(self.hold),
            ClampStage::On | ClampStage::OnAgain(_) => {
                let bytes = crate::uds::KL15_ON;
                ClampStep::Send(
                    Request {
                        target: crate::uds::CLAMP_TARGET,
                        uds: copy_bytes(bytes.as_slice()),
                    },
                )
            },
            ClampStage::Done | ClampStage::Failed(_) => ClampStep::Done,
        }
    }

    /// Take what the switch brought.
    pub fn record(self, outcome: Outcome) -> (r: ClampCycle)
        ensures
            r.stage == clamp_recorded(self.stage, failure_of(outcome)),
            r.hold == self.hold,
    {
        let failure: Option<ClientError> = match outcome {
            Ok(_) => None,
            Err(e) => Some(e),
        };
        let hold: u64 = self.hold;
        let stage = match (self.stage, failure) {
            (ClampStage::Off, None) => ClampStage::Holding,
            (ClampStage::Off, Some(e)) => ClampStage::Failed(
                ClientError::ClampSwitch { phase: "off", restored: true, source: Box::new(e) },
            ),
            (ClampStage::On, None) => ClampStage::Done,
            (ClampStage::On, Some(e)) => ClampStage::OnAgain(e),
            (ClampStage::OnAgain(_), None) => ClampStage::Done,
            (ClampStage::OnAgain(first), Some(_)) => ClampStage::Failed(
                ClientError::ClampSwitch { phase: "on", restored: false, source: Box::new(first) },
            ),
            (stage, _) => stage,
        };
        ClampCycle { stage, hold }
    }

    /// The hold is over.
    pub fn rested(self) -> (r: ClampCycle)
        ensures
            r.stage == (if self.stage is Holding {
                ClampStage::On
            } else {
                self.stage
            }),
            r.hold == self.hold,
    {
        let hold: u64 = self.hold;
        let stage = match self.stage {
            ClampStage::Holding => ClampStage::On,
            stage => stage,
        };
        ClampCycle { stage, hold }
    }

    /// How the cycle ended; a cycle that has not ended has no result yet.
    pub fn finish(self) -> (r: Option<Result<(), ClientError>>)
        ensures
            r == (match self.stage {
                ClampStage::Done => Some(Ok::<(), ClientError>(())),
                ClampStage::Failed(e) => Some(Err::<(), ClientError>(e)),
                _ => None,
            }),
    {
        match self.stage {
            ClampStage::Done => Some(Ok(())),
            ClampStage::Failed(e) => Some(Err(e)),
            _ => None,
        }
    }
}

/// A script after what its first requests brought.
pub open spec fn script_after(v: ScriptView, outcomes: Seq<Result<Seq<u8>, ClientError>>) -> ScriptView
    decreases outcomes.len(),
{
    if outcomes.len() == 0 {
        v
    } else {
        script_recorded(script_after(v, outcomes.drop_last()), outcomes.last())
    }
}

/// The outcomes of requests that were all answered.
pub open spec fn all_answered(replies: Seq<Seq<u8>>) -> Seq<Result<Seq<u8>, ClientError>> {
    Seq::new(replies.len(), |i: int| Ok(replies[i]))
}

/// A script asks its target each of its requests once, in order, and keeps every reply in order; it
/// is over when each was answered.
pub proof fn law_a_script_asks_each_request_and_keeps_each_reply(
    target: u8,
    requests: Seq<Seq<u8>>,
    replies: Seq<Seq<u8>>,
)
    requires
        replies.len() <= requests.len(),
    ensures
        ({
            let after = script_after(script_start(target, requests, false), all_answered(replies));
            &&& after.replies == replies
            &&& after.failure is None
            &&& after.requests == requests
            &&& after.target == target
            &&& !after.echoed
            &&& replies.len() == requests.len() ==> script_request(after) is None
            &&& replies.len() < requests.len() ==> script_request(after) == Some(
                crate::client::services::RequestView {
                    target,
                    uds: requests[replies.len() as int],
                },
            )
        }),
    decreases replies.len(),
{
    if replies.len() > 0 {
        law_a_script_asks_each_request_and_keeps_each_reply(target, requests, replies.drop_last());
        assert(all_answered(replies).drop_last() =~= all_answered(replies.drop_last()));
        assert(replies.drop_last().push(replies.last()) =~= replies);
    }
}

/// The first request that fails ends the script with its error; nothing more is asked.
pub proof fn law_the_first_failure_ends_a_script(
    target: u8,
    requests: Seq<Seq<u8>>,
    replies: Seq<Seq<u8>>,
    e: ClientError,
)
    requires
        replies.len() < requests.len(),
    ensures
        ({
            let after = script_after(
                script_start(target, requests, false),
                all_answered(replies).push(Err(e)),
            );
            &&& after.failure == Some(e)
            &&& after.replies == replies
            &&& script_request(after) is None
            &&& script_value(after) == Err::<Seq<u8>, ClientError>(e)
        }),
{
    law_a_script_asks_each_request_and_keeps_each_reply(target, requests, replies);
    let outcomes = all_answered(replies).push(Err::<Seq<u8>, ClientError>(e));
    assert(outcomes.drop_last() =~= all_answered(replies));
}

/// Where echoes are asked for, a read of an identifier is answered by that identifier only: any
/// other is an error that names both. The reply to anything but a read is taken as it is.
pub proof fn law_an_echoed_read_is_answered_by_its_own_identifier(
    asked: u16,
    got: u16,
    value: Seq<u8>,
    request: Seq<u8>,
    reply: Seq<u8>,
)
    ensures
        checked(
            seq![0x22u8, (asked / 0x100) as u8, (asked % 0x100) as u8],
            true,
            Ok(seq![0x62u8, (got / 0x100) as u8, (got % 0x100) as u8] + value),
        ) == (if got == asked {
            Ok::<Seq<u8>, ClientError>(
                seq![0x62u8, (got / 0x100) as u8, (got % 0x100) as u8] + value,
            )
        } else {
            Err(ClientError::UnexpectedDid { requested: asked, got })
        }),
        request.len() == 0 || request[0] != 0x22 ==> checked(request, true, Ok(reply)) == Ok::<
            Seq<u8>,
            ClientError,
        >(reply),
        checked(request, false, Ok(reply)) == Ok::<Seq<u8>, ClientError>(reply),
{
    crate::uds::law_a_reading_is_an_echo_and_a_value(got, value, reply);
    crate::bytes::lemma_be16_round_trip(asked);
    let request = seq![0x22u8, (asked / 0x100) as u8, (asked % 0x100) as u8];
    assert(crate::bytes::be16(request[1], request[2]) as u16 == asked);
}

/// A clear asks its ECU for the extended session and then for the clear of the group, and for
/// nothing else.
pub proof fn law_a_clear_enters_the_extended_session_first(target: u8, dtc: [u8; 3])
    ensures
        clear_script(target, dtc).target == target,
        clear_script(target, dtc).requests == seq![
            seq![0x10u8, 0x03u8],
            seq![0x14u8, dtc@[0], dtc@[1], dtc@[2]],
        ],
        clear_script(target, dtc).replies.len() == 0,
        clear_script(target, dtc).failure is None,
        !clear_script(target, dtc).echoed,
{
}

proof fn lemma_last_read(requests: Seq<Seq<u8>>, i: int)
    requires
        0 <= i < requests.len(),
        is_read(requests[i]),
        forall|j: int| i < j < requests.len() ==> !is_read(#[trigger] requests[j]),
    ensures
        last_read(requests) == Some(i),
    decreases requests.len(),
{
    if i < requests.len() - 1 {
        assert(!is_read(requests[requests.len() - 1]));
        lemma_last_read(requests.drop_last(), i);
    }
}

proof fn lemma_no_read(requests: Seq<Seq<u8>>)
    requires
        forall|j: int| 0 <= j < requests.len() ==> !is_read(#[trigger] requests[j]),
    ensures
        last_read(requests) is None,
    decreases requests.len(),
{
    if requests.len() > 0 {
        assert(!is_read(requests[requests.len() - 1]));
        lemma_no_read(requests.drop_last());
    }
}

/// The value of a script is what stands behind the echo in the reply to its last read; a script that
/// reads nothing has none.
pub proof fn law_a_script_gives_the_value_of_its_last_read(
    v: ScriptView,
    i: int,
    did: u16,
    value: Seq<u8>,
)
    requires
        v.failure is None,
        v.replies.len() == v.requests.len(),
    ensures
        0 <= i < v.requests.len() && v.requests[i].len() > 0 && v.requests[i][0] == 0x22 && (forall|
            j: int,
        |
            i < j < v.requests.len() ==> (#[trigger] v.requests[j]).len() == 0 || v.requests[j][0]
                != 0x22) && v.replies[i] == seq![
            0x62u8,
            (did / 0x100) as u8,
            (did % 0x100) as u8,
        ] + value ==> script_value(v) == Ok::<Seq<u8>, ClientError>(value),
        (forall|j: int|
            0 <= j < v.requests.len() ==> (#[trigger] v.requests[j]).len() == 0 || v.requests[j][0]
                != 0x22) ==> script_value(v) == Err::<Seq<u8>, ClientError>(
            ClientError::NoMeasurementRead,
        ),
{
    crate::uds::law_a_reading_is_an_echo_and_a_value(did, value, v.replies[i]);
    if 0 <= i < v.requests.len() && v.requests[i].len() > 0 && v.requests[i][0] == 0x22 && (forall|
        j: int,
    |
        i < j < v.requests.len() ==> (#[trigger] v.requests[j]).len() == 0 || v.requests[j][0]
            != 0x22) {
        assert forall|j: int| i < j < v.requests.len() implies !is_read(
            #[trigger] v.requests[j],
        ) by {}
        lemma_last_read(v.requests, i);
    }
    if forall|j: int|
        0 <= j < v.requests.len() ==> (#[trigger] v.requests[j]).len() == 0 || v.requests[j][0]
            != 0x22 {
        assert forall|j: int| 0 <= j < v.requests.len() implies !is_read(
            #[trigger] v.requests[j],
        ) by {}
        lemma_no_read(v.requests);
    }
}

/// The gateway's own store is cleared by a routine at the gateway, and every ECU's by one request
/// to the functional address.
pub proof fn law_the_wide_clears_are_fixed()
    ensures
        store_clear().target == 0x10,
        store_clear().uds == seq![
            0x31u8,
            0x01u8,
            (ZFS_CLEAR_ROUTINE / 0x100) as u8,
            (ZFS_CLEAR_ROUTINE % 0x100) as u8,
            ZFS_CLEAR_VALUE,
        ],
        ZFS_CLEAR_ROUTINE == 0x4000,
        ZFS_CLEAR_VALUE == 0,
        functional_clear().target == 0xDF,
        functional_clear().uds == crate::uds::clear_request(crate::uds::CLEAR_ALL_DTCS),
{
    crate::uds::law_a_clear_names_its_group(crate::uds::CLEAR_ALL_DTCS);
    assert(functional_clear().uds =~= seq![0x14u8, 0xFFu8, 0xFFu8, 0xFFu8]);
}

/// A cycle switches terminal 15 off, holds it down for its hold, and switches it on; where that
/// fails it tries once more before it gives up. `first` and `second` are what the two attempts
/// brought.
pub proof fn law_a_cycle_switches_off_holds_and_switches_on(
    hold: u64,
    first: Option<ClientError>,
    second: Option<ClientError>,
)
    ensures
        ({
            let off = crate::client::services::RequestView {
                target: 0x40,
                uds: seq![0x31u8, 0x01u8, 0x10u8, 0x01u8, 0x06u8, 0x06u8, 0xA8u8],
            };
            let on = crate::client::services::RequestView {
                target: 0x40,
                uds: seq![0x31u8, 0x01u8, 0x10u8, 0x01u8, 0x0Au8, 0x0Au8, 0x43u8],
            };
            let held = clamp_recorded(ClampStage::Off, None);
            let tried = clamp_recorded(ClampStage::On, first);
            let again = clamp_recorded(tried, second);
            &&& clamp_step(ClampCycle { stage: ClampStage::Off, hold }) == ClampStepView::Send(off)
            &&& clamp_step(ClampCycle { stage: held, hold }) == ClampStepView::Sleep(hold)
            &&& clamp_step(ClampCycle { stage: ClampStage::On, hold }) == ClampStepView::Send(on)
            &&& first is None ==> tried is Done && clamp_step(ClampCycle { stage: tried, hold })
                is Done
            &&& first is Some ==> clamp_step(ClampCycle { stage: tried, hold })
                == ClampStepView::Send(on)
            &&& first is Some && second is None ==> again is Done
            &&& first is Some && second is Some ==> again == ClampStage::Failed(
                ClientError::ClampSwitch {
                    phase: "on",
                    restored: false,
                    source: Box::new(first->0),
                },
            ) && clamp_step(ClampCycle { stage: again, hold }) is Done
        }),
{
    crate::uds::law_the_wire_is_fixed();
}

/// A cycle that cannot switch terminal 15 off says so, with the reason, and stops: terminal 15 is
/// up.
pub proof fn law_a_cycle_that_cannot_switch_off_stops(hold: u64, e: ClientError)
    ensures
        clamp_recorded(ClampStage::Off, Some(e)) == ClampStage::Failed(
            ClientError::ClampSwitch { phase: "off", restored: true, source: Box::new(e) },
        ),
        clamp_step(ClampCycle { stage: clamp_recorded(ClampStage::Off, Some(e)), hold }) is Done,
{
}

/// A list is modelled item by item, in order.
pub proof fn law_a_list_is_modelled_item_by_item(byte: Seq<Vec<u8>>)
    ensures
        byte_views(byte).len() == byte.len(),
        forall|i: int| 0 <= i < byte.len() ==> #[trigger] byte_views(byte)[i] == byte[i]@,
{
}

} // verus!
