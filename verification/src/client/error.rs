//! The unified error for the diagnostic client.
use vstd::prelude::*;

verus! {

/// An error from the diagnostic client: transport, decode, or protocol.
#[derive(Debug)]
pub enum ClientError {
    /// The HSFZ transport failed (connect, discovery bind, I/O, or read timeout).
    Hsfz(crate::hsfz::Error),
    /// A UDS response payload could not be decoded.
    Uds(crate::uds::UdsError),
    /// The ECU returned a negative response for the request.
    Negative { sid: u8, nrc: u8 },
    /// No interface had a link-local (169.254.x.x) address to discover from.
    NoLinkLocalInterface,
    /// Discovery ran but no gateway answered.
    NoGatewayFound { bind_ip: [u8; 4] },
    /// More than one gateway answered; the caller must choose one by IP.
    AmbiguousGateway { count: usize },
    /// A dynamic-measurement request sequence carried no `0x22` read step.
    NoMeasurementRead,
    /// The connection ended while a request was waiting; the session is no longer usable.
    ConnectionClosed,
    /// A second request was issued to a target that already has one in flight.
    RequestInFlight { target: u8 },
    /// The reply echoes another data identifier than the one requested (a desynced stream).
    UnexpectedDid { requested: u16, got: u16 },
    /// A terminal-15 switch failed. `restored` tells whether terminal 15 is up.
    ClampSwitch { phase: &'static str, restored: bool, source: Box<ClientError> },
}

/// What came back of one request: the reply's bytes, or why there are none.
pub type Outcome = Result<Vec<u8>, ClientError>;

/// The view of an outcome.
pub open spec fn outcome_view(outcome: Outcome) -> Result<Seq<u8>, ClientError> {
    match outcome {
        Ok(payload) => Ok(payload@),
        Err(e) => Err(e),
    }
}

/// Whether the exchange ended in silence: no answer within the time allowed.
pub open spec fn is_silence(outcome: Result<Seq<u8>, ClientError>) -> bool {
    outcome is Err && outcome->Err_0 is Hsfz && outcome->Err_0->Hsfz_0 is ReadTimeout
}

/// Whether the exchange ended in silence.
pub fn timed_out(outcome: &Outcome) -> (r: bool)
    ensures
        r == is_silence(outcome_view(*outcome)),
{
    match outcome {
        Err(ClientError::Hsfz(crate::hsfz::Error::ReadTimeout { .. })) => true,
        _ => false,
    }
}

/// A copy of an error.
pub fn copy_error(e: &ClientError) -> (r: ClientError)
    ensures
        r == *e,
    decreases e,
{
    match e {
        ClientError::Hsfz(inner) => ClientError::Hsfz(copy_hsfz_error(inner)),
        ClientError::Uds(inner) => ClientError::Uds(*inner),
        ClientError::Negative { sid, nrc } => ClientError::Negative { sid: *sid, nrc: *nrc },
        ClientError::NoLinkLocalInterface => ClientError::NoLinkLocalInterface,
        ClientError::NoGatewayFound { bind_ip } => ClientError::NoGatewayFound {
            bind_ip: *bind_ip,
        },
        ClientError::AmbiguousGateway { count } => ClientError::AmbiguousGateway { count: *count },
        ClientError::NoMeasurementRead => ClientError::NoMeasurementRead,
        ClientError::ConnectionClosed => ClientError::ConnectionClosed,
        ClientError::RequestInFlight { target } => ClientError::RequestInFlight {
            target: *target,
        },
        ClientError::UnexpectedDid { requested, got } => ClientError::UnexpectedDid {
            requested: *requested,
            got: *got,
        },
        ClientError::ClampSwitch { phase, restored, source } => ClientError::ClampSwitch {
            phase: *phase,
            restored: *restored,
            source: Box::new(copy_error(&**source)),
        },
    }
}

/// A copy of a transport error.
fn copy_hsfz_error(e: &crate::hsfz::Error) -> (r: crate::hsfz::Error)
    ensures
        r == *e,
{
    match e {
        crate::hsfz::Error::Connect { peer, message } => crate::hsfz::Error::Connect {
            peer: peer.clone(),
            message: message.clone(),
        },
        crate::hsfz::Error::ConnectTimeout { peer, timeout } => crate::hsfz::Error::ConnectTimeout {
            peer: peer.clone(),
            timeout: *timeout,
        },
        crate::hsfz::Error::ReadTimeout { timeout } => crate::hsfz::Error::ReadTimeout {
            timeout: *timeout,
        },
        crate::hsfz::Error::FrameTooLarge { length } => crate::hsfz::Error::FrameTooLarge {
            length: *length,
        },
        crate::hsfz::Error::Truncated { have, need } => crate::hsfz::Error::Truncated {
            have: *have,
            need: *need,
        },
        crate::hsfz::Error::DiscoveryBind { bind_ip, message } => {
            crate::hsfz::Error::DiscoveryBind { bind_ip: *bind_ip, message: message.clone() }
        },
        crate::hsfz::Error::Io { message } => crate::hsfz::Error::Io { message: message.clone() },
    }
}

} // verus!
